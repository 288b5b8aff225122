//! What holds of the collection across its operations.

use vstd::prelude::*;
use vstd::seq_lib::*;
use vstd::utf8::*;
use crate::error::Error;
use crate::favorites::{
    favorite_lines, join_lines, lemma_lines_after_feed, lemma_lines_of_last, lines_of,
};
use crate::hud::{hud_le, HudView};
use crate::huds::activation::{
    active_path, after_displaced, after_installed, can_displace, has_hud, lemma_position,
    lemma_relocated_keeps_names, position, relocated, shelf_path, step, ActionView, Event,
};
use crate::huds::persistence::{lemma_leading_favorites, leading_favorites};
use crate::huds::scan::{
    descriptor_test, descriptors, scan_with, scanned_active, scanned_hud, scanned_huds,
};
use crate::huds::HudsView;
use crate::order::{is_sorting_of, sorted};
use crate::path::{HUDS, INFO_VDF};
use crate::text::{
    lemma_bytes_le_antisym, lemma_bytes_le_refl, lemma_bytes_le_total, lemma_bytes_le_trans,
    name_le,
};

verus! {

/// Names are totally ordered: each stands at or before itself; of two, one
/// stands at or before the other; two that each stand at or before the other
/// are the same name; and the order is transitive.
pub proof fn lemma_names_are_totally_ordered(a: Seq<char>, b: Seq<char>, c: Seq<char>)
    ensures
        name_le(a, a),
        name_le(a, b) || name_le(b, a),
        name_le(a, b) && name_le(b, a) ==> a == b,
        name_le(a, b) && name_le(b, c) ==> name_le(a, c),
{
    lemma_bytes_le_refl(encode_utf8(a));
    lemma_bytes_le_total(encode_utf8(a), encode_utf8(b));
    if name_le(a, b) && name_le(b, a) {
        lemma_bytes_le_antisym(encode_utf8(a), encode_utf8(b));
        encode_utf8_decode_utf8(a);
        encode_utf8_decode_utf8(b);
    }
    if name_le(a, b) && name_le(b, c) {
        lemma_bytes_le_trans(encode_utf8(a), encode_utf8(b), encode_utf8(c));
    }
}

/// In a list in display order the favorites at its head are all its
/// favorites.
pub proof fn lemma_sorted_favorites_lead(huds: Seq<HudView>)
    requires
        sorted(huds),
    ensures
        forall|i: int| 0 <= i < huds.len() ==> (huds[i].favorite <==> i < leading_favorites(huds)),
{
    lemma_leading_favorites(huds);
    let n = leading_favorites(huds) as int;
    assert forall|i: int| 0 <= i < huds.len() implies (huds[i].favorite <==> i < n) by {
        if i >= n && huds[i].favorite {
            if i > n {
                assert(hud_le(huds[n], huds[i]));
            }
        }
    }
}

/// Every hud that a scan lists is a favorite exactly if its name is among
/// the favorites that the scan was made with.
pub proof fn lemma_scan_flags(
    listed: Seq<HudView>,
    root: Seq<Seq<char>>,
    root_entries: Seq<Seq<Seq<char>>>,
    huds_entries: Seq<Seq<Seq<char>>>,
    favorites: Set<Seq<char>>,
)
    requires
        is_sorting_of(listed, scanned_huds(root, root_entries, huds_entries, favorites)),
    ensures
        forall|i: int|
            0 <= i < listed.len() ==> ((#[trigger] listed[i]).favorite <==> favorites.contains(
                listed[i].name,
            )),
{
    let found = scanned_huds(root, root_entries, huds_entries, favorites);
    let rest = descriptors(root.push(HUDS@), huds_entries).map_values(scan_with(favorites));
    assert forall|i: int| 0 <= i < listed.len() implies ((#[trigger] listed[i]).favorite
        <==> favorites.contains(listed[i].name)) by {
        let hud = listed[i];
        assert(listed.contains(hud));
        to_multiset_contains(listed, hud);
        to_multiset_contains(found, hud);
        let k = choose|k: int| 0 <= k < found.len() && found[k] == hud;
        match scanned_active(root, root_entries, favorites) {
            Some(active) => {
                if k > 0 {
                    assert(found[k] == rest[k - 1]);
                }
            },
            None => {},
        }
    }
}

/// After the favorites were loaded from a file and the folder was scanned,
/// the huds listed as favorites are those whose names the file lists.
pub proof fn lemma_load_then_scan(
    content: Seq<u8>,
    root: Seq<Seq<char>>,
    root_entries: Seq<Seq<Seq<char>>>,
    huds_entries: Seq<Seq<Seq<char>>>,
    loaded: HudsView,
    scanned: HudsView,
)
    requires
        valid_utf8(content),
        loaded.favorites == favorite_lines(decode_utf8(content)),
        is_sorting_of(
            scanned.huds,
            scanned_huds(root, root_entries, huds_entries, loaded.favorites),
        ),
    ensures
        forall|i: int|
            0 <= i < scanned.huds.len() ==> ((#[trigger] scanned.huds[i]).favorite
                <==> favorite_lines(decode_utf8(content)).contains(scanned.huds[i].name)),
{
    lemma_scan_flags(scanned.huds, root, root_entries, huds_entries, loaded.favorites);
}

/// A name that can stand on a line of its own in the favorites file and be
/// read back: not empty, without a line feed, and without a carriage return
/// at its end.
pub open spec fn fits_a_line(name: Seq<char>) -> bool {
    &&& name.len() > 0
    &&& forall|i: int| 0 <= i < name.len() ==> name[i] != '\n'
    &&& name.last() != '\r'
}

/// The lines of a file that lists names which each fit a line are those
/// names, in their order.
pub proof fn lemma_lines_of_joined(names: Seq<Seq<char>>)
    requires
        forall|i: int| 0 <= i < names.len() ==> fits_a_line(#[trigger] names[i]),
    ensures
        lines_of(join_lines(names)) == names,
    decreases names.len(),
{
    if names.len() == 0 {
        assert(lines_of(join_lines(names)) =~= names);
    } else if names.len() == 1 {
        assert(fits_a_line(names[0]));
        lemma_lines_of_last(names[0]);
        assert(seq![names[0]] =~= names);
    } else {
        let rest = names.drop_first();
        assert(fits_a_line(names[0]));
        assert forall|i: int| 0 <= i < rest.len() implies fits_a_line(#[trigger] rest[i]) by {
            assert(rest[i] == names[i + 1]);
        }
        lemma_lines_of_joined(rest);
        lemma_lines_after_feed(names[0], join_lines(rest));
        assert(seq![names[0]] + rest =~= names);
    }
}

/// Writing names that each fit a line to the favorites file and loading the
/// file gives exactly those names, whatever the order they were written in.
pub proof fn lemma_favorites_round_trip(names: Seq<Seq<char>>)
    requires
        forall|i: int| 0 <= i < names.len() ==> fits_a_line(#[trigger] names[i]),
    ensures
        valid_utf8(encode_utf8(join_lines(names))),
        favorite_lines(decode_utf8(encode_utf8(join_lines(names)))) == names.to_set(),
{
    let text = join_lines(names);
    encode_utf8_valid_utf8(text);
    encode_utf8_decode_utf8(text);
    lemma_lines_of_joined(names);
    assert forall|name: Seq<char>| names.to_set().contains(name) implies name.len() > 0 by {
        let i = choose|i: int| 0 <= i < names.len() && names[i] == name;
        assert(fits_a_line(names[i]));
    }
    assert(favorite_lines(text) =~= names.to_set());
}

/// Two files that list the same names, each fitting a line, load to the same
/// favorites, in whatever order each lists them.
pub proof fn lemma_round_trip_ignores_order(written: Seq<Seq<char>>, reordered: Seq<Seq<char>>)
    requires
        forall|i: int| 0 <= i < written.len() ==> fits_a_line(#[trigger] written[i]),
        forall|i: int| 0 <= i < reordered.len() ==> fits_a_line(#[trigger] reordered[i]),
        written.to_set() == reordered.to_set(),
    ensures
        favorite_lines(decode_utf8(encode_utf8(join_lines(written)))) == favorite_lines(
            decode_utf8(encode_utf8(join_lines(reordered))),
        ),
{
    lemma_favorites_round_trip(written);
    lemma_favorites_round_trip(reordered);
}

/// A request for the hud that is active, while its folder is there, is
/// refused and changes nothing.
pub proof fn lemma_active_hud_is_refused(state: HudsView, hud: Seq<char>, root: Seq<Seq<char>>)
    requires
        state.active_hud is Some,
        state.active_hud->Some_0.name == hud,
    ensures
        step(state, hud, root, Event::Requested { active_present: true }) == (
            state,
            ActionView::Abort(Error::AlreadyActive),
        ),
{
}

/// Whether a request for the hud named `hud` leads to moves: the hud is in
/// the list, and where the active hud's folder is there, that hud is another
/// one and in the list too.
pub open spec fn can_activate(state: HudsView, hud: Seq<char>, active_present: bool) -> bool {
    &&& has_hud(state.huds, hud)
    &&& state.active_hud is Some && active_present ==> state.active_hud->Some_0.name != hud
        && has_hud(state.huds, state.active_hud->Some_0.name)
}

/// The collection after an activation of the hud named `hud` in which every
/// move was made.
pub open spec fn activated(
    state: HudsView,
    hud: Seq<char>,
    root: Seq<Seq<char>>,
    active_present: bool,
) -> HudsView {
    let asked = step(state, hud, root, Event::Requested { active_present });
    if asked.1 is Displace {
        step(step(asked.0, hud, root, Event::Displaced).0, hud, root, Event::Installed).0
    } else {
        step(asked.0, hud, root, Event::Installed).0
    }
}

/// An activation in which every move is made ends after two moves at most,
/// with the hud asked for as the active one, recorded at the content root.
/// The hud that was active before, if its folder was there, is recorded in
/// the folder of the huds not in use. No hud changes its place in the list,
/// its name or its favorite flag, so a list in display order stays so. A
/// scan that then finds the descriptor of the new active hud first under the
/// content root gives an active hud of the same name at the same place.
pub proof fn lemma_activation(
    state: HudsView,
    hud: Seq<char>,
    root: Seq<Seq<char>>,
    active_present: bool,
)
    requires
        can_activate(state, hud, active_present),
    ensures
        ({
            let asked = step(state, hud, root, Event::Requested { active_present });
            let displaces = state.active_hud is Some && active_present;
            &&& asked.0 == state
            &&& displaces ==> asked.1 == (ActionView::Displace {
                from: state.active_hud->Some_0.path,
                to: shelf_path(root, state.active_hud->Some_0.name),
            })
            &&& displaces ==> step(state, hud, root, Event::Displaced).1 is Install
            &&& !displaces ==> asked.1 is Install
            &&& asked.1 is Install ==> asked.1->Install_to == active_path(root, hud)
            &&& step(
                if displaces {
                    step(state, hud, root, Event::Displaced).0
                } else {
                    state
                },
                hud,
                root,
                Event::Installed,
            ).1 is Done
        }),
        ({
            let end = activated(state, hud, root, active_present);
            let at = position(state.huds, hud);
            &&& end.favorites == state.favorites
            &&& end.active_hud == Some(end.huds[at])
            &&& end.huds[at].name == hud
            &&& end.huds[at].path == active_path(root, hud)
            &&& end.huds.len() == state.huds.len()
            &&& forall|k: int|
                0 <= k < state.huds.len() ==> (#[trigger] end.huds[k]).name == state.huds[k].name
                    && end.huds[k].favorite == state.huds[k].favorite
            &&& state.active_hud is Some && active_present ==> end.huds[position(
                state.huds,
                state.active_hud->Some_0.name,
            )].path == shelf_path(root, state.active_hud->Some_0.name)
            &&& sorted(state.huds) ==> sorted(end.huds)
            &&& scanned_active(
                root,
                seq![active_path(root, hud).push(INFO_VDF@)],
                end.favorites,
            ) == Some(HudView { favorite: end.favorites.contains(hud), ..end.huds[at] })
        }),
{
    let displaces = state.active_hud is Some && active_present;
    let end = activated(state, hud, root, active_present);
    let at = position(state.huds, hud);
    lemma_position(state.huds, hud);
    let mid = if displaces {
        step(state, hud, root, Event::Displaced).0
    } else {
        state
    };
    if displaces {
        let old_name = state.active_hud->Some_0.name;
        lemma_position(state.huds, old_name);
        lemma_relocated_keeps_names(state.huds, old_name, shelf_path(root, old_name), hud);
        lemma_relocated_keeps_names(state.huds, old_name, shelf_path(root, old_name), old_name);
        assert(can_displace(state, hud));
        assert(mid == after_displaced(state, root));
        assert(position(state.huds, old_name) != at);
    }
    assert(has_hud(mid.huds, hud));
    assert(position(mid.huds, hud) == at);
    lemma_relocated_keeps_names(mid.huds, hud, active_path(root, hud), hud);
    assert(end == after_installed(mid, hud, root));
    assert(end.huds == relocated(mid.huds, hud, active_path(root, hud)));
    assert forall|k: int| 0 <= k < state.huds.len() implies (#[trigger] end.huds[k]).name
        == state.huds[k].name && end.huds[k].favorite == state.huds[k].favorite by {
        assert(end.huds[k].name == mid.huds[k].name);
        assert(mid.huds[k].name == state.huds[k].name);
    }
    if sorted(state.huds) {
        assert forall|i: int, j: int| 0 <= i < j < end.huds.len() implies hud_le(
            end.huds[i],
            end.huds[j],
        ) by {
            assert(hud_le(state.huds[i], state.huds[j]));
            assert(end.huds[i].name == state.huds[i].name);
            assert(end.huds[j].name == state.huds[j].name);
        }
    }
    let entry = active_path(root, hud).push(INFO_VDF@);
    let walk = seq![entry];
    assert(root =~= entry.subrange(0, root.len() as int));
    assert(descriptor_test(root)(entry));
    assert(walk.drop_last() =~= Seq::<Seq<Seq<char>>>::empty());
    reveal_with_fuel(Seq::filter, 2);
    assert(descriptors(root, walk) =~= walk);
    assert(entry.drop_last() =~= active_path(root, hud));
    assert(scanned_hud(entry, end.favorites) == (HudView {
        favorite: end.favorites.contains(hud),
        ..end.huds[at]
    }));
}

/// Where the descriptor file of `hud` lies.
pub open spec fn descriptor_of(hud: HudView) -> Seq<Seq<char>> {
    hud.path.push(INFO_VDF@)
}

/// [`descriptor_of`] as a function to map by.
pub open spec fn descriptor_fn() -> spec_fn(HudView) -> Seq<Seq<char>> {
    |hud: HudView| descriptor_of(hud)
}

/// Whether the hud at `k` in the list carries the name of the active hud.
pub open spec fn is_active(state: HudsView, k: int) -> bool {
    state.active_hud is Some && state.huds[k].name == state.active_hud->Some_0.name
}

/// Whether the collection is as a scan of a content folder at `root` leaves
/// it where every hud lies in a folder of its own: no two huds share a
/// name; each is a favorite exactly if its name is among the favorites; the
/// active hud is listed and lies at the root; every other hud lies in the
/// folder of the huds not in use.
pub open spec fn well_kept(state: HudsView, root: Seq<Seq<char>>) -> bool {
    &&& forall|i: int, j: int|
        0 <= i < j < state.huds.len() ==> (#[trigger] state.huds[i]).name != (
        #[trigger] state.huds[j]).name
    &&& forall|k: int|
        0 <= k < state.huds.len() ==> (#[trigger] state.huds[k]).favorite
            == state.favorites.contains(state.huds[k].name)
    &&& forall|k: int|
        0 <= k < state.huds.len() ==> (#[trigger] state.huds[k]).path == if is_active(state, k) {
            active_path(root, state.huds[k].name)
        } else {
            shelf_path(root, state.huds[k].name)
        }
    &&& state.active_hud matches Some(active) ==> has_hud(state.huds, active.name)
        && state.huds[position(state.huds, active.name)] == active
}

/// The huds of the list but the active one.
pub open spec fn shelved(state: HudsView) -> Seq<HudView> {
    match state.active_hud {
        Some(active) => state.huds.remove(position(state.huds, active.name)),
        None => state.huds,
    }
}

/// Whether a walk of the content folder finds what the collection records:
/// under the root the descriptor of the active hud and no other, and under
/// the folder of the huds not in use the descriptors of the other huds, in
/// the order `met`.
pub open spec fn walk_shows(
    state: HudsView,
    root: Seq<Seq<char>>,
    root_entries: Seq<Seq<Seq<char>>>,
    huds_entries: Seq<Seq<Seq<char>>>,
    met: Seq<HudView>,
) -> bool {
    &&& met.to_multiset() == shelved(state).to_multiset()
    &&& descriptors(root, root_entries) == match state.active_hud {
        Some(active) => seq![descriptor_of(active)],
        None => Seq::<Seq<Seq<char>>>::empty(),
    }
    &&& descriptors(root.push(HUDS@), huds_entries) == met.map_values(descriptor_fn())
}

/// Whether the list holds a hud of the given name and favorite flag.
pub open spec fn lists(huds: Seq<HudView>, name: Seq<char>, favorite: bool) -> bool {
    exists|i: int|
        0 <= i < huds.len() && (#[trigger] huds[i]).name == name && huds[i].favorite == favorite
}

/// In a well-kept collection the descriptor of a hud marks that very hud.
pub proof fn lemma_scan_of_own_descriptor(state: HudsView, root: Seq<Seq<char>>, k: int)
    requires
        well_kept(state, root),
        0 <= k < state.huds.len(),
    ensures
        scanned_hud(descriptor_of(state.huds[k]), state.favorites) == state.huds[k],
{
    let hud = state.huds[k];
    let entry = descriptor_of(hud);
    assert(entry.drop_last() =~= hud.path);
    assert(hud.path.last() == hud.name);
}

/// A scan of a content folder that holds what a well-kept collection records
/// gives that collection again: the same active hud, and the same huds, in
/// display order.
pub proof fn lemma_scan_reproduces(
    state: HudsView,
    root: Seq<Seq<char>>,
    root_entries: Seq<Seq<Seq<char>>>,
    huds_entries: Seq<Seq<Seq<char>>>,
    met: Seq<HudView>,
    listed: Seq<HudView>,
)
    requires
        well_kept(state, root),
        walk_shows(state, root, root_entries, huds_entries, met),
        is_sorting_of(listed, scanned_huds(root, root_entries, huds_entries, state.favorites)),
    ensures
        scanned_active(root, root_entries, state.favorites) == state.active_hud,
        listed.to_multiset() == state.huds.to_multiset(),
        sorted(listed),
{
    let favorites = state.favorites;
    let rest = descriptors(root.push(HUDS@), huds_entries).map_values(scan_with(favorites));
    let others = shelved(state);
    assert(rest =~= met) by {
        assert forall|i: int| 0 <= i < met.len() implies rest[i] == met[i] by {
            let hud = met[i];
            assert(met.contains(hud));
            to_multiset_contains(met, hud);
            to_multiset_contains(others, hud);
            let j = choose|j: int| 0 <= j < others.len() && others[j] == hud;
            match state.active_hud {
                Some(active) => {
                    let p = position(state.huds, active.name);
                    lemma_position(state.huds, active.name);
                    let k = if j < p {
                        j
                    } else {
                        j + 1
                    };
                    assert(state.huds[k] == hud);
                    lemma_scan_of_own_descriptor(state, root, k);
                },
                None => {
                    lemma_scan_of_own_descriptor(state, root, j);
                },
            }
        }
    }
    match state.active_hud {
        Some(active) => {
            let p = position(state.huds, active.name);
            lemma_position(state.huds, active.name);
            lemma_scan_of_own_descriptor(state, root, p);
            let found = scanned_huds(root, root_entries, huds_entries, favorites);
            assert(found =~= met.insert(0, active));
            to_multiset_insert(met, 0, active);
            assert(state.huds =~= others.insert(p, active));
            to_multiset_insert(others, p, active);
        },
        None => {},
    }
}

/// An activation in which every move is made leaves a well-kept collection
/// well kept.
pub proof fn lemma_activation_keeps_well(state: HudsView, hud: Seq<char>, root: Seq<Seq<char>>)
    requires
        well_kept(state, root),
        can_activate(state, hud, state.active_hud is Some),
    ensures
        well_kept(activated(state, hud, root, state.active_hud is Some), root),
{
    let displaces = state.active_hud is Some;
    let end = activated(state, hud, root, displaces);
    let at = position(state.huds, hud);
    lemma_activation(state, hud, root, displaces);
    lemma_position(state.huds, hud);
    let mid = if displaces {
        step(state, hud, root, Event::Displaced).0
    } else {
        state
    };
    if displaces {
        let old_name = state.active_hud->Some_0.name;
        lemma_position(state.huds, old_name);
        lemma_relocated_keeps_names(state.huds, old_name, shelf_path(root, old_name), hud);
        assert(mid == after_displaced(state, root));
    }
    assert(position(mid.huds, hud) == at);
    assert(end == after_installed(mid, hud, root));
    assert(end.huds == relocated(mid.huds, hud, active_path(root, hud)));
    assert forall|k: int| 0 <= k < end.huds.len() implies (#[trigger] end.huds[k]).path
        == if is_active(end, k) {
        active_path(root, end.huds[k].name)
    } else {
        shelf_path(root, end.huds[k].name)
    } by {
        assert(end.huds[k].name == state.huds[k].name);
        if k != at {
            assert(state.huds[k].name != state.huds[at].name);
            assert(end.huds[k].path == mid.huds[k].path);
            if displaces && k == position(state.huds, state.active_hud->Some_0.name) {
            } else {
                assert(mid.huds[k].path == state.huds[k].path);
                if displaces {
                    let p = position(state.huds, state.active_hud->Some_0.name);
                    assert(state.huds[k].name != state.huds[p].name);
                }
            }
        }
    }
    assert(has_hud(end.huds, hud)) by {
        assert(end.huds[at].name == hud);
    }
    lemma_position(end.huds, hud);
    let again = position(end.huds, hud);
    assert(again == at) by {
        assert(end.huds[again].name == state.huds[again].name);
        if again < at {
            assert(state.huds[again].name != state.huds[at].name);
        }
        if at < again {
            assert(state.huds[at].name != state.huds[again].name);
        }
    }
}

/// A scan after an activation in which every move was made gives the hud
/// asked for as the active hud, at the content root, and lists the huds that
/// were listed before, each under its name and with its favorite flag, in
/// display order, the hud that was active before in the folder of the huds
/// not in use. This holds of a well-kept collection whose active hud's
/// folder, if it has an active hud, is there, and of a walk that finds what
/// the collection records after the moves.
pub proof fn lemma_scan_after_activation(
    state: HudsView,
    hud: Seq<char>,
    root: Seq<Seq<char>>,
    root_entries: Seq<Seq<Seq<char>>>,
    huds_entries: Seq<Seq<Seq<char>>>,
    met: Seq<HudView>,
    listed: Seq<HudView>,
)
    requires
        well_kept(state, root),
        can_activate(state, hud, state.active_hud is Some),
        walk_shows(
            activated(state, hud, root, state.active_hud is Some),
            root,
            root_entries,
            huds_entries,
            met,
        ),
        is_sorting_of(listed, scanned_huds(root, root_entries, huds_entries, state.favorites)),
    ensures
        ({
            let active = scanned_active(root, root_entries, state.favorites);
            &&& active is Some
            &&& active->Some_0.name == hud
            &&& active->Some_0.path == active_path(root, hud)
        }),
        sorted(listed),
        listed.len() == state.huds.len(),
        forall|name: Seq<char>, favorite: bool| #[trigger]
            lists(listed, name, favorite) <==> lists(state.huds, name, favorite),
        state.active_hud matches Some(before) ==> exists|i: int|
            0 <= i < listed.len() && (#[trigger] listed[i]).name == before.name && listed[i].path
                == shelf_path(root, before.name),
{
    let end = activated(state, hud, root, state.active_hud is Some);
    lemma_activation(state, hud, root, state.active_hud is Some);
    lemma_activation_keeps_well(state, hud, root);
    lemma_scan_reproduces(end, root, root_entries, huds_entries, met, listed);
    to_multiset_len(listed);
    to_multiset_len(end.huds);
    assert forall|name: Seq<char>, favorite: bool| #[trigger]
        lists(listed, name, favorite) <==> lists(state.huds, name, favorite) by {
        if lists(listed, name, favorite) {
            let i = choose|i: int|
                0 <= i < listed.len() && (#[trigger] listed[i]).name == name && listed[i].favorite
                    == favorite;
            assert(listed.contains(listed[i]));
            to_multiset_contains(listed, listed[i]);
            to_multiset_contains(end.huds, listed[i]);
            let k = choose|k: int| 0 <= k < end.huds.len() && end.huds[k] == listed[i];
            assert(state.huds[k].name == name && state.huds[k].favorite == favorite);
        }
        if lists(state.huds, name, favorite) {
            let k = choose|k: int|
                0 <= k < state.huds.len() && (#[trigger] state.huds[k]).name == name
                    && state.huds[k].favorite == favorite;
            assert(end.huds.contains(end.huds[k]));
            to_multiset_contains(end.huds, end.huds[k]);
            to_multiset_contains(listed, end.huds[k]);
            let i = choose|i: int| 0 <= i < listed.len() && listed[i] == end.huds[k];
            assert(listed[i].name == name && listed[i].favorite == favorite);
        }
    }
    if state.active_hud is Some {
        let before = state.active_hud->Some_0;
        let p = position(state.huds, before.name);
        lemma_position(state.huds, before.name);
        assert(end.huds.contains(end.huds[p]));
        to_multiset_contains(end.huds, end.huds[p]);
        to_multiset_contains(listed, end.huds[p]);
        let i = choose|i: int| 0 <= i < listed.len() && listed[i] == end.huds[p];
        assert(listed[i].name == before.name && listed[i].path == shelf_path(root, before.name));
    }
}

} // verus!
