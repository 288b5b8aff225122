use std::cmp::Ordering;

use hud_manager::order::sort_huds;
use hud_manager::Hud;

fn path(parts: &[&str]) -> Vec<String> {
    parts.iter().map(|part| part.to_string()).collect()
}

fn hud(name: &str, favorite: bool) -> Hud {
    Hud { name: name.to_string(), path: path(&["custom", "huds", name]), favorite }
}

fn names(huds: &[Hud]) -> Vec<&str> {
    huds.iter().map(|hud| hud.name.as_str()).collect()
}

#[test]
fn a_descriptor_marks_the_folder_that_holds_it() {
    let found = Hud::from_vdf(path(&["/", "custom", "huds", "budhud", "info.vdf"]));
    assert_eq!(found.name, "budhud");
    assert_eq!(found.path, path(&["/", "custom", "huds", "budhud"]));
    assert!(!found.favorite);
}

#[test]
fn a_descriptor_at_the_root_marks_the_root() {
    let found = Hud::from_vdf(path(&["custom", "info.vdf"]));
    assert_eq!(found.name, "custom");
    assert_eq!(found.path, path(&["custom"]));
    assert!(!found.favorite);
}

#[test]
fn favorites_come_before_the_others() {
    assert_eq!(hud("zeta", true).cmp(&hud("alpha", false)), Ordering::Less);
    assert_eq!(hud("alpha", false).cmp(&hud("zeta", true)), Ordering::Greater);
    assert!(hud("zeta", true).at_or_before(&hud("alpha", false)));
    assert!(!hud("alpha", false).at_or_before(&hud("zeta", true)));
}

#[test]
fn names_decide_among_huds_of_one_kind() {
    assert_eq!(hud("alpha", true).cmp(&hud("beta", true)), Ordering::Less);
    assert_eq!(hud("beta", true).cmp(&hud("alpha", true)), Ordering::Greater);
    assert_eq!(hud("alpha", false).cmp(&hud("beta", false)), Ordering::Less);
    assert_eq!(hud("beta", false).cmp(&hud("alpha", false)), Ordering::Greater);
    assert_eq!(hud("alpha", false).cmp(&hud("alpha", false)), Ordering::Equal);
    assert_eq!(hud("Beta", false).cmp(&hud("alpha", false)), Ordering::Less);
}

#[test]
fn the_order_does_not_look_at_the_place() {
    let here = Hud { name: "a".to_string(), path: path(&["x", "a"]), favorite: false };
    let there = Hud { name: "a".to_string(), path: path(&["y", "a"]), favorite: false };
    assert_eq!(here.cmp(&there), Ordering::Equal);
    assert_eq!(here.partial_cmp(&there), Some(Ordering::Equal));
    assert!(here != there);
}

#[test]
fn the_operators_follow_the_order() {
    assert!(hud("a", true) < hud("a", false));
    assert!(hud("a", false) > hud("b", true));
    assert!(hud("a", false) <= hud("a", false));
    assert_eq!(hud("a", false).partial_cmp(&hud("b", false)), Some(Ordering::Less));
}

#[test]
fn huds_are_equal_when_all_they_hold_is() {
    assert_eq!(hud("a", true), hud("a", true));
    assert_ne!(hud("a", true), hud("a", false));
    assert_ne!(hud("a", true), hud("b", true));
}

#[test]
fn a_copy_holds_the_same() {
    let first = hud("budhud", true);
    let copy = first.clone();
    assert_eq!(copy, first);
    assert_eq!(copy.name, "budhud");
    assert_eq!(copy.path, path(&["custom", "huds", "budhud"]));
    assert!(copy.favorite);
}

#[test]
fn sorting_puts_favorites_first_and_names_in_order() {
    let mut huds = vec![
        hud("m0re", false),
        hud("budhud", true),
        hud("ahud", false),
        hud("zeeshud", true),
        hud("Toonhud", false),
    ];
    sort_huds(&mut huds);
    assert_eq!(names(&huds), vec!["budhud", "zeeshud", "Toonhud", "ahud", "m0re"]);
    assert_eq!(
        huds.iter().map(|hud| hud.favorite).collect::<Vec<bool>>(),
        vec![true, true, false, false, false]
    );
}

#[test]
fn sorting_keeps_every_hud() {
    let mut huds = vec![hud("b", false), hud("a", false), hud("b", false), hud("a", true)];
    sort_huds(&mut huds);
    assert_eq!(names(&huds), vec!["a", "a", "b", "b"]);
    assert!(huds[0].favorite);
    assert!(!huds[1].favorite);
}

#[test]
fn sorting_an_empty_list_leaves_it_empty() {
    let mut huds: Vec<Hud> = Vec::new();
    sort_huds(&mut huds);
    assert!(huds.is_empty());
}
