use hud_manager::NameSet;

#[test]
fn a_new_set_is_empty() {
    let set = NameSet::new();
    assert!(set.is_empty());
    assert_eq!(set.len(), 0);
    assert!(!set.contains("a"));
    assert!(set.to_vec().is_empty());
}

#[test]
fn a_name_is_held_once() {
    let mut set = NameSet::new();
    assert!(set.insert("budhud".to_string()));
    assert!(!set.insert("budhud".to_string()));
    assert!(set.insert("ahud".to_string()));
    assert_eq!(set.len(), 2);
    assert!(set.contains("budhud"));
    assert!(set.contains("ahud"));
    assert!(!set.contains("Budhud"));
    assert!(!set.is_empty());
    let mut names = set.to_vec();
    names.sort();
    assert_eq!(names, vec!["ahud".to_string(), "budhud".to_string()]);
}

#[test]
fn clearing_removes_every_name() {
    let mut set = NameSet::new();
    set.insert("a".to_string());
    set.insert("b".to_string());
    set.clear();
    assert!(set.is_empty());
    assert_eq!(set.len(), 0);
    assert!(!set.contains("a"));
}
