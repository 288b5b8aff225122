use hud_manager::{Action, Error, Event, Hud, Huds};

fn path(parts: &[&str]) -> Vec<String> {
    parts.iter().map(|part| part.to_string()).collect()
}

fn root() -> Vec<String> {
    path(&["/", "tf", "custom"])
}

fn shelved(name: &str, favorite: bool) -> Hud {
    Hud { name: name.to_string(), path: path(&["/", "tf", "custom", "huds", name]), favorite }
}

fn installed(name: &str, favorite: bool) -> Hud {
    Hud { name: name.to_string(), path: path(&["/", "tf", "custom", name]), favorite }
}

fn collection() -> Huds {
    let mut huds = Huds::new();
    huds.huds = vec![
        shelved("budhud", true),
        shelved("ahud", false),
        installed("m0rehud", false),
        shelved("zeeshud", false),
    ];
    huds.active_hud = Some(installed("m0rehud", false));
    huds
}

fn is_abort(action: &Action, error: Error) -> bool {
    matches!(action, Action::Abort(found) if *found == error)
}

#[test]
fn the_active_hud_is_refused_and_nothing_changes() {
    let mut huds = collection();
    let before = huds.huds.clone();
    let action = huds.set_active_hud("m0rehud", &root(), Event::Requested { active_present: true });
    assert!(is_abort(&action, Error::AlreadyActive));
    assert_eq!(huds.huds, before);
    assert_eq!(huds.active_hud, Some(installed("m0rehud", false)));
}

#[test]
fn a_request_first_moves_the_active_hud_away() {
    let mut huds = collection();
    let before = huds.huds.clone();
    let action = huds.set_active_hud("ahud", &root(), Event::Requested { active_present: true });
    match action {
        Action::Displace { from, to } => {
            assert_eq!(from, path(&["/", "tf", "custom", "m0rehud"]));
            assert_eq!(to, path(&["/", "tf", "custom", "huds", "m0rehud"]));
        },
        other => panic!("{:?}", other),
    }
    assert_eq!(huds.huds, before);
    assert_eq!(huds.active_hud, Some(installed("m0rehud", false)));
}

#[test]
fn after_the_first_move_the_hud_asked_for_is_moved_in() {
    let mut huds = collection();
    huds.set_active_hud("ahud", &root(), Event::Requested { active_present: true });
    let action = huds.set_active_hud("ahud", &root(), Event::Displaced);
    match action {
        Action::Install { from, to } => {
            assert_eq!(from, path(&["/", "tf", "custom", "huds", "ahud"]));
            assert_eq!(to, path(&["/", "tf", "custom", "ahud"]));
        },
        other => panic!("{:?}", other),
    }
    assert_eq!(
        huds.huds,
        vec![
            shelved("budhud", true),
            shelved("ahud", false),
            shelved("m0rehud", false),
            shelved("zeeshud", false),
        ]
    );
    assert_eq!(huds.active_hud, Some(installed("m0rehud", false)));
}

#[test]
fn after_both_moves_the_hud_asked_for_is_active() {
    let mut huds = collection();
    huds.set_active_hud("ahud", &root(), Event::Requested { active_present: true });
    huds.set_active_hud("ahud", &root(), Event::Displaced);
    let action = huds.set_active_hud("ahud", &root(), Event::Installed);
    assert!(matches!(action, Action::Done));
    assert_eq!(
        huds.huds,
        vec![
            shelved("budhud", true),
            installed("ahud", false),
            shelved("m0rehud", false),
            shelved("zeeshud", false),
        ]
    );
    assert_eq!(huds.active_hud, Some(installed("ahud", false)));
}

#[test]
fn a_scan_after_an_activation_gives_the_same_active_hud() {
    let mut huds = collection();
    huds.set_active_hud("budhud", &root(), Event::Requested { active_present: true });
    huds.set_active_hud("budhud", &root(), Event::Displaced);
    huds.set_active_hud("budhud", &root(), Event::Installed);
    let active = huds.active_hud.clone().unwrap();
    let listed = huds.huds.clone();
    let mut under_root: Vec<Vec<String>> = Vec::new();
    let mut under_huds: Vec<Vec<String>> = Vec::new();
    for hud in &listed {
        let mut descriptor = hud.path.clone();
        descriptor.push("info.vdf".to_string());
        if hud.path.len() == 4 {
            under_root.push(descriptor);
        } else {
            under_huds.push(descriptor);
        }
    }
    huds.save_favorites();
    huds.scan_for_huds(&root(), &under_root, &under_huds);
    assert_eq!(huds.active_hud, Some(active));
    assert_eq!(huds.huds, listed);
}

#[test]
fn without_an_active_hud_the_hud_asked_for_is_moved_in_at_once() {
    let mut huds = collection();
    huds.active_hud = None;
    let action = huds.set_active_hud("zeeshud", &root(), Event::Requested { active_present: false });
    match action {
        Action::Install { from, to } => {
            assert_eq!(from, path(&["/", "tf", "custom", "huds", "zeeshud"]));
            assert_eq!(to, path(&["/", "tf", "custom", "zeeshud"]));
        },
        other => panic!("{:?}", other),
    }
    let action = huds.set_active_hud("zeeshud", &root(), Event::Installed);
    assert!(matches!(action, Action::Done));
    assert_eq!(huds.active_hud, Some(installed("zeeshud", false)));
    assert_eq!(huds.huds[3], installed("zeeshud", false));
}

#[test]
fn an_active_hud_whose_folder_is_gone_is_not_moved() {
    let mut huds = collection();
    let action = huds.set_active_hud("ahud", &root(), Event::Requested { active_present: false });
    assert!(matches!(action, Action::Install { .. }));
    let again =
        huds.set_active_hud("m0rehud", &root(), Event::Requested { active_present: false });
    match again {
        Action::Install { from, to } => {
            assert_eq!(from, path(&["/", "tf", "custom", "m0rehud"]));
            assert_eq!(to, path(&["/", "tf", "custom", "m0rehud"]));
        },
        other => panic!("{:?}", other),
    }
}

#[test]
fn a_hud_that_is_not_listed_cannot_be_activated() {
    let mut huds = collection();
    let before = huds.huds.clone();
    for event in [
        Event::Requested { active_present: true },
        Event::Requested { active_present: false },
        Event::Displaced,
        Event::Installed,
    ] {
        let action = huds.set_active_hud("nohud", &root(), event);
        assert!(is_abort(&action, Error::NotFound));
        assert_eq!(huds.huds, before);
        assert_eq!(huds.active_hud, Some(installed("m0rehud", false)));
    }
}

#[test]
fn an_active_hud_that_is_not_listed_cannot_be_moved_away() {
    let mut huds = collection();
    huds.active_hud = Some(installed("ghost", false));
    let action = huds.set_active_hud("ahud", &root(), Event::Requested { active_present: true });
    assert!(is_abort(&action, Error::NotFound));
    let action = huds.set_active_hud("ahud", &root(), Event::Displaced);
    assert!(is_abort(&action, Error::NotFound));
    huds.active_hud = None;
    let action = huds.set_active_hud("ahud", &root(), Event::Displaced);
    assert!(is_abort(&action, Error::NotFound));
}

#[test]
fn a_failed_first_move_changes_nothing() {
    let mut huds = collection();
    let before = huds.huds.clone();
    huds.set_active_hud("ahud", &root(), Event::Requested { active_present: true });
    let action = huds.set_active_hud("ahud", &root(), Event::DisplaceFailed);
    assert!(is_abort(&action, Error::Io));
    assert_eq!(huds.huds, before);
    assert_eq!(huds.active_hud, Some(installed("m0rehud", false)));
}

#[test]
fn a_failed_second_move_leaves_the_former_active_hud_moved_away() {
    let mut huds = collection();
    huds.set_active_hud("ahud", &root(), Event::Requested { active_present: true });
    huds.set_active_hud("ahud", &root(), Event::Displaced);
    let action = huds.set_active_hud("ahud", &root(), Event::InstallFailed);
    assert!(is_abort(&action, Error::Io));
    assert_eq!(huds.huds[2], shelved("m0rehud", false));
    assert_eq!(huds.huds[1], shelved("ahud", false));
    assert_eq!(huds.active_hud, Some(installed("m0rehud", false)));
}

#[test]
fn activation_keeps_names_flags_and_places_in_the_list() {
    let mut huds = collection();
    let before = huds.huds.clone();
    huds.set_active_hud("budhud", &root(), Event::Requested { active_present: true });
    huds.set_active_hud("budhud", &root(), Event::Displaced);
    huds.set_active_hud("budhud", &root(), Event::Installed);
    for (now, then) in huds.huds.iter().zip(before.iter()) {
        assert_eq!(now.name, then.name);
        assert_eq!(now.favorite, then.favorite);
    }
    assert_eq!(huds.active_hud, Some(installed("budhud", true)));
    assert_eq!(huds.favorites().len(), 0);
}

#[test]
fn of_two_huds_of_one_name_the_first_is_moved() {
    let mut huds = Huds::new();
    huds.huds = vec![shelved("ahud", false), installed("ahud", false)];
    let action = huds.set_active_hud("ahud", &root(), Event::Requested { active_present: false });
    match action {
        Action::Install { from, .. } => {
            assert_eq!(from, path(&["/", "tf", "custom", "huds", "ahud"]));
        },
        other => panic!("{:?}", other),
    }
}
