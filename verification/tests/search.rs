use hud_manager::search::{
    filter, is_searchable, is_shown, select_relevant, try_filter, MAX_QUERY_LEN,
};
use hud_manager::{Error, Hud, Huds, NameSet};
use nucleo_matcher::pattern::{CaseMatching, Normalization, Pattern};
use nucleo_matcher::Matcher;

fn names(parts: &[&str]) -> Vec<String> {
    parts.iter().map(|part| part.to_string()).collect()
}

fn scored(entries: &[(&str, u32)]) -> Vec<(String, u32)> {
    entries.iter().map(|(name, score)| (name.to_string(), *score)).collect()
}

fn sorted(set: &NameSet) -> Vec<String> {
    let mut names = set.to_vec();
    names.sort();
    names
}

#[test]
fn an_empty_query_selects_nothing() {
    let found = filter("", &names(&["Alpha", "Alphb", "Zeta"])).unwrap();
    assert!(found.is_empty());
    assert!(filter("", &names(&[])).unwrap().is_empty());
}

#[test]
fn a_query_that_matches_no_name_fails() {
    let found = filter("zzzznomatch", &names(&["Alpha", "Alphb", "Zeta"]));
    assert!(matches!(found, Err(Error::NoResults)));
    assert!(matches!(filter("a", &names(&[])), Err(Error::NoResults)));
}

#[test]
fn names_that_match_nearly_as_well_as_the_best_are_selected() {
    let found = filter("Alph", &names(&["Alpha", "Alphb", "Zeta"])).unwrap();
    assert!(found.contains("Alpha"));
    assert!(found.contains("Alphb"));
    assert!(!found.contains("Zeta"));
    assert_eq!(found.len(), 2);
}

#[test]
fn case_is_ignored() {
    let found = filter("BUD", &names(&["budhud", "ahud"])).unwrap();
    assert_eq!(sorted(&found), names(&["budhud"]));
    let found = filter("bud", &names(&["BudHud", "ahud"])).unwrap();
    assert_eq!(sorted(&found), names(&["BudHud"]));
}

#[test]
fn weak_matches_are_left_out() {
    let all = names(&["budhud", "bxuxdxhxuxd", "ahud"]);
    let found = filter("budhud", &all).unwrap();
    assert_eq!(sorted(&found), names(&["budhud"]));
}

#[test]
fn the_selection_follows_the_matcher() {
    let all = names(&["rayshud", "ahud", "budhud", "m0rehud", "Toonhud", "hudas", "flawhud"]);
    for query in ["hud", "ray", "h", "dh", "oo", "hud ", "!ray", "^bud", "ud$"] {
        let pattern = Pattern::parse(query, CaseMatching::Ignore, Normalization::Never);
        let mut matcher = Matcher::default();
        let ranked = pattern.match_list(all.iter(), &mut matcher);
        let found = filter(query, &all);
        if ranked.is_empty() {
            assert!(matches!(found, Err(Error::NoResults)));
            continue;
        }
        let best = ranked.iter().map(|(_, score)| *score).max().unwrap();
        let mut expected: Vec<String> = ranked
            .iter()
            .filter(|(_, score)| best > 0 && 5 * u64::from(*score) >= 4 * u64::from(best))
            .map(|(name, _)| name.to_string())
            .collect();
        expected.sort();
        expected.dedup();
        assert_eq!(sorted(&found.unwrap()), expected);
    }
}

#[test]
fn a_query_of_blanks_matches_every_name_with_no_score() {
    let found = filter(" ", &names(&["Alpha", "Zeta"])).unwrap();
    assert!(found.is_empty());
}

#[test]
fn a_name_listed_twice_is_selected_once() {
    let found = filter("bud", &names(&["budhud", "budhud"])).unwrap();
    assert_eq!(found.len(), 1);
    assert!(found.contains("budhud"));
}

#[test]
fn the_longest_query_is_taken() {
    let query = "a".repeat(MAX_QUERY_LEN);
    let found = filter(&query, &names(&["aaa", "b"]));
    assert!(matches!(found, Err(Error::NoResults)));
    let long_name = "a".repeat(MAX_QUERY_LEN + 1);
    let found = filter(&query, &vec![long_name.clone()]).unwrap();
    assert!(found.contains(&long_name));
}

#[test]
fn four_fifths_of_the_best_score_is_within_reach() {
    let found = select_relevant(&scored(&[("a", 100), ("b", 80), ("c", 79), ("d", 0)])).unwrap();
    assert_eq!(sorted(&found), names(&["a", "b"]));
    let found = select_relevant(&scored(&[("a", 4), ("b", 5), ("c", 3)])).unwrap();
    assert_eq!(sorted(&found), names(&["a", "b"]));
    let found = select_relevant(&scored(&[("a", 7), ("b", 5), ("c", 6)])).unwrap();
    assert_eq!(sorted(&found), names(&["a", "c"]));
}

#[test]
fn the_best_score_need_not_come_first() {
    let found = select_relevant(&scored(&[("c", 10), ("b", 85), ("a", 100)])).unwrap();
    assert_eq!(sorted(&found), names(&["a", "b"]));
}

#[test]
fn a_single_match_is_selected() {
    let found = select_relevant(&scored(&[("only", 1)])).unwrap();
    assert_eq!(sorted(&found), names(&["only"]));
}

#[test]
fn against_a_best_score_of_zero_nothing_is_selected() {
    let found = select_relevant(&scored(&[("a", 0), ("b", 0)])).unwrap();
    assert!(found.is_empty());
}

#[test]
fn no_match_at_all_is_a_failure() {
    assert!(matches!(select_relevant(&Vec::new()), Err(Error::NoResults)));
}

#[test]
fn the_largest_scores_do_not_overflow() {
    let found =
        select_relevant(&scored(&[("a", u32::MAX), ("b", u32::MAX - 1), ("c", u32::MAX / 2)]))
            .unwrap();
    assert_eq!(sorted(&found), names(&["a", "b"]));
}

#[test]
fn a_name_is_selected_by_its_best_entry() {
    let found = select_relevant(&scored(&[("a", 100), ("b", 10), ("b", 90)])).unwrap();
    assert_eq!(sorted(&found), names(&["a", "b"]));
}

#[test]
fn the_collection_is_searched_by_the_names_of_its_huds() {
    let mut huds = Huds::new();
    huds.huds = ["Alpha", "Alphb", "Zeta"]
        .iter()
        .map(|name| Hud { name: name.to_string(), path: vec![name.to_string()], favorite: false })
        .collect();
    let found = huds.search("Alph").unwrap();
    assert_eq!(sorted(&found), names(&["Alpha", "Alphb"]));
    assert!(huds.search("").unwrap().is_empty());
    assert!(matches!(huds.search("zzzznomatch"), Err(Error::NoResults)));
}

#[test]
fn an_empty_selection_shows_every_hud() {
    let none = NameSet::new();
    assert!(is_shown(&none, "budhud"));
    assert!(is_shown(&none, ""));
    let mut some = NameSet::new();
    some.insert("budhud".to_string());
    assert!(is_shown(&some, "budhud"));
    assert!(!is_shown(&some, "ahud"));
}

#[test]
fn a_query_is_measured_in_characters() {
    let all = names(&["budhud"]);
    assert!(is_searchable("", &all));
    assert!(is_searchable(&"a".repeat(MAX_QUERY_LEN), &all));
    assert!(!is_searchable(&"a".repeat(MAX_QUERY_LEN + 1), &all));
    assert!(is_searchable(&"\u{e9}".repeat(MAX_QUERY_LEN), &all));
    assert!(!is_searchable(&"\u{e9}".repeat(MAX_QUERY_LEN + 1), &all));
    assert!(is_searchable("bud", &names(&[])));
}

#[test]
fn a_query_that_is_too_long_is_not_handed_on() {
    let all = names(&["Alpha", "Alphb", "Zeta"]);
    assert!(try_filter(&"a".repeat(MAX_QUERY_LEN + 1), &all).is_none());
    let longest = try_filter(&"a".repeat(MAX_QUERY_LEN), &all);
    assert!(matches!(longest, Some(Err(Error::NoResults))));
}

#[test]
fn a_query_that_fits_is_answered_as_by_the_filter() {
    let all = names(&["Alpha", "Alphb", "Zeta"]);
    let found = try_filter("Alph", &all).unwrap().unwrap();
    assert_eq!(sorted(&found), sorted(&filter("Alph", &all).unwrap()));
    assert_eq!(sorted(&found), names(&["Alpha", "Alphb"]));
    assert!(try_filter("", &all).unwrap().unwrap().is_empty());
    assert!(matches!(try_filter("zzzznomatch", &all), Some(Err(Error::NoResults))));
}

#[test]
fn names_with_combining_marks_are_matched() {
    let marked = format!("a{}", "\u{301}".repeat(1000));
    let all = vec![marked.clone(), "b".to_string()];
    assert!(is_searchable("a", &all));
    let found = try_filter("b", &all).unwrap().unwrap();
    assert_eq!(sorted(&found), names(&["b"]));
    assert!(matches!(try_filter("zz", &all), Some(Err(Error::NoResults))));
}

#[test]
fn the_collection_is_searched_where_the_query_fits() {
    let mut huds = Huds::new();
    huds.huds = ["Alpha", "Alphb", "Zeta"]
        .iter()
        .map(|name| Hud { name: name.to_string(), path: vec![name.to_string()], favorite: false })
        .collect();
    let found = huds.try_search("Alph").unwrap().unwrap();
    assert_eq!(sorted(&found), names(&["Alpha", "Alphb"]));
    assert!(huds.try_search(&"x".repeat(MAX_QUERY_LEN + 1)).is_none());
}
