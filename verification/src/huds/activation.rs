//! Making a hud the active one: the decisions between the moves on disk.
//!
//! Activation moves folders, which this library does not do itself. The
//! caller reports what happened as an [`Event`] and is told what to do next
//! as an [`Action`]: first `Requested`, then after each move that it was
//! asked for whether the move was made, until the answer is `Done` or
//! `Abort`.

use vstd::prelude::*;
use vstd::string::*;
use crate::error::Error;
use crate::hud::{Hud, HudView};
use crate::huds::{Huds, HudsView};
use crate::path::{child, HUDS};
use crate::text::same_name;

verus! {

/// What the caller reports.
#[derive(Clone, Copy, Debug, PartialEq, Eq, Structural)]
pub enum Event {
    /// Activation is asked for; `active_present` says whether the folder of
    /// the active hud exists on disk.
    Requested { active_present: bool },
    /// The active hud's folder was moved out of the way.
    Displaced,
    /// The active hud's folder could not be moved out of the way.
    DisplaceFailed,
    /// The folder of the hud asked for was moved into place.
    Installed,
    /// The folder of the hud asked for could not be moved into place.
    InstallFailed,
}

/// What the caller is to do next.
#[derive(Debug)]
pub enum Action {
    /// Move the active hud's folder `from` its place `to` the folder of the
    /// huds not in use, then report `Displaced` or `DisplaceFailed`.
    Displace { from: Vec<String>, to: Vec<String> },
    /// Move the folder of the hud asked for `from` its place `to` the content
    /// root, then report `Installed` or `InstallFailed`.
    Install { from: Vec<String>, to: Vec<String> },
    /// The hud asked for is the active one now.
    Done,
    /// The activation has ended without success.
    Abort(Error),
}

/// What an [`Action`] holds, as mathematical values.
pub enum ActionView {
    Displace { from: Seq<Seq<char>>, to: Seq<Seq<char>> },
    Install { from: Seq<Seq<char>>, to: Seq<Seq<char>> },
    Done,
    Abort(Error),
}

impl View for Action {
    type V = ActionView;

    open spec fn view(&self) -> ActionView {
        match *self {
            Action::Displace { from, to } => ActionView::Displace {
                from: from.deep_view(),
                to: to.deep_view(),
            },
            Action::Install { from, to } => ActionView::Install {
                from: from.deep_view(),
                to: to.deep_view(),
            },
            Action::Done => ActionView::Done,
            Action::Abort(error) => ActionView::Abort(error),
        }
    }
}

/// Whether a hud named `name` is in the list.
pub open spec fn has_hud(huds: Seq<HudView>, name: Seq<char>) -> bool {
    exists|i: int| 0 <= i < huds.len() && (#[trigger] huds[i]).name == name
}

/// Whether the hud at `i` is the first one named `name`.
pub open spec fn is_first_named(huds: Seq<HudView>, name: Seq<char>, i: int) -> bool {
    &&& 0 <= i < huds.len()
    &&& huds[i].name == name
    &&& forall|k: int| 0 <= k < i ==> (#[trigger] huds[k]).name != name
}

/// Where the first hud named `name` stands in the list.
pub open spec fn position(huds: Seq<HudView>, name: Seq<char>) -> int {
    choose|i: int| is_first_named(huds, name, i)
}

/// Where the hud named `name` lies while it is not in use.
pub open spec fn shelf_path(root: Seq<Seq<char>>, name: Seq<char>) -> Seq<Seq<char>> {
    root.push(HUDS@).push(name)
}

/// Where the hud named `name` lies while it is the active one.
pub open spec fn active_path(root: Seq<Seq<char>>, name: Seq<char>) -> Seq<Seq<char>> {
    root.push(name)
}

/// The list with the first hud named `name` recorded at `path`.
pub open spec fn relocated(huds: Seq<HudView>, name: Seq<char>, path: Seq<Seq<char>>) -> Seq<
    HudView,
> {
    let i = position(huds, name);
    huds.update(i, HudView { path, ..huds[i] })
}

/// The answer to a request for the hud named `hud`, which changes nothing:
/// the active hud, if its folder is there, is refused as active already and
/// is otherwise to be moved away first; without it the hud asked for is to be
/// moved into place at once. A hud that the list lacks ends the activation.
pub open spec fn on_request(
    state: HudsView,
    hud: Seq<char>,
    root: Seq<Seq<char>>,
    active_present: bool,
) -> ActionView {
    if state.active_hud is Some && active_present {
        let active = state.active_hud->Some_0;
        if active.name == hud {
            ActionView::Abort(Error::AlreadyActive)
        } else if !has_hud(state.huds, active.name) || !has_hud(state.huds, hud) {
            ActionView::Abort(Error::NotFound)
        } else {
            ActionView::Displace { from: active.path, to: shelf_path(root, active.name) }
        }
    } else if !has_hud(state.huds, hud) {
        ActionView::Abort(Error::NotFound)
    } else {
        ActionView::Install {
            from: state.huds[position(state.huds, hud)].path,
            to: active_path(root, hud),
        }
    }
}

/// Whether the report that the active hud was moved away can be acted on:
/// there is an active hud, and it and the hud named `hud` are in the list.
pub open spec fn can_displace(state: HudsView, hud: Seq<char>) -> bool {
    &&& state.active_hud is Some
    &&& has_hud(state.huds, state.active_hud->Some_0.name)
    &&& has_hud(state.huds, hud)
}

/// The collection once the active hud was moved away: its entry in the list
/// lies in the folder of the huds not in use.
pub open spec fn after_displaced(state: HudsView, root: Seq<Seq<char>>) -> HudsView {
    let name = state.active_hud->Some_0.name;
    HudsView { huds: relocated(state.huds, name, shelf_path(root, name)), ..state }
}

/// The collection once the hud named `hud` was moved into place: its entry
/// lies at the content root, and it is the active hud.
pub open spec fn after_installed(state: HudsView, hud: Seq<char>, root: Seq<Seq<char>>) -> HudsView {
    let huds = relocated(state.huds, hud, active_path(root, hud));
    HudsView { huds, active_hud: Some(huds[position(state.huds, hud)]), ..state }
}

/// The collection after `event`, and the answer to it.
pub open spec fn step(state: HudsView, hud: Seq<char>, root: Seq<Seq<char>>, event: Event) -> (
    HudsView,
    ActionView,
) {
    match event {
        Event::Requested { active_present } => (
            state,
            on_request(state, hud, root, active_present),
        ),
        Event::Displaced => if can_displace(state, hud) {
            let next = after_displaced(state, root);
            (
                next,
                ActionView::Install {
                    from: next.huds[position(next.huds, hud)].path,
                    to: active_path(root, hud),
                },
            )
        } else {
            (state, ActionView::Abort(Error::NotFound))
        },
        Event::Installed => if has_hud(state.huds, hud) {
            (after_installed(state, hud, root), ActionView::Done)
        } else {
            (state, ActionView::Abort(Error::NotFound))
        },
        Event::DisplaceFailed => (state, ActionView::Abort(Error::Io)),
        Event::InstallFailed => (state, ActionView::Abort(Error::Io)),
    }
}

/// Recording a hud at another place leaves every hud where it stands in the
/// list, under its name and with its favorite flag.
pub proof fn lemma_relocated_keeps_names(
    huds: Seq<HudView>,
    name: Seq<char>,
    path: Seq<Seq<char>>,
    other: Seq<char>,
)
    requires
        has_hud(huds, name),
    ensures
        relocated(huds, name, path).len() == huds.len(),
        forall|k: int|
            0 <= k < huds.len() ==> (#[trigger] relocated(huds, name, path)[k]).name
                == huds[k].name && relocated(huds, name, path)[k].favorite == huds[k].favorite,
        has_hud(relocated(huds, name, path), other) == has_hud(huds, other),
        has_hud(huds, other) ==> position(relocated(huds, name, path), other) == position(
            huds,
            other,
        ),
{
    let moved = relocated(huds, name, path);
    let first = choose|i: int| 0 <= i < huds.len() && (#[trigger] huds[i]).name == name;
    lemma_position(huds, name);
    assert forall|k: int| 0 <= k < huds.len() implies (#[trigger] moved[k]).name == huds[k].name
        && moved[k].favorite == huds[k].favorite by {}
    if has_hud(huds, other) {
        let k = choose|k: int| 0 <= k < huds.len() && (#[trigger] huds[k]).name == other;
        assert(moved[k].name == other);
        lemma_position(huds, other);
        lemma_position(moved, other);
        let a = position(huds, other);
        let b = position(moved, other);
        assert(moved[a].name == other);
        assert(huds[b].name == moved[b].name);
        if a < b {
            assert(moved[a].name != other);
        }
        if b < a {
            assert(huds[b].name != other);
        }
    }
    if has_hud(moved, other) {
        let k = choose|k: int| 0 <= k < moved.len() && (#[trigger] moved[k]).name == other;
        assert(huds[k].name == other);
    }
}

/// A name that is in the list has a first place there.
pub proof fn lemma_position(huds: Seq<HudView>, name: Seq<char>)
    requires
        has_hud(huds, name),
    ensures
        is_first_named(huds, name, position(huds, name)),
{
    let some = choose|i: int| 0 <= i < huds.len() && (#[trigger] huds[i]).name == name;
    lemma_first_named_before(huds, name, some);
}

/// A name that stands at `at` has a first place at or before `at`.
proof fn lemma_first_named_before(huds: Seq<HudView>, name: Seq<char>, at: int)
    requires
        0 <= at < huds.len(),
        huds[at].name == name,
    ensures
        exists|i: int| is_first_named(huds, name, i),
    decreases at,
{
    if exists|k: int| 0 <= k < at && (#[trigger] huds[k]).name == name {
        let k = choose|k: int| 0 <= k < at && (#[trigger] huds[k]).name == name;
        lemma_first_named_before(huds, name, k);
    } else {
        assert(is_first_named(huds, name, at));
    }
}

/// The first index at which a hud named `name` stands, if there is one.
fn find_hud(huds: &Vec<Hud>, name: &str) -> (at: Option<usize>)
    ensures
        at is Some <==> has_hud(huds.deep_view(), name@),
        at matches Some(i) ==> i == position(huds.deep_view(), name@) && is_first_named(
            huds.deep_view(),
            name@,
            i as int,
        ),
{
    let mut i: usize = 0;
    while i < huds.len()
        invariant
            i <= huds.len(),
            forall|k: int| 0 <= k < i ==> (#[trigger] huds.deep_view()[k]).name != name@,
        decreases huds.len() - i,
    {
        if same_name(huds[i].name.as_str(), name) {
            proof {
                let all = huds.deep_view();
                assert(is_first_named(all, name@, i as int));
                let at = position(all, name@);
                assert(is_first_named(all, name@, at));
                if at < i {
                    assert(all[at].name != name@);
                }
                if i < at {
                    assert(all[i as int].name != name@);
                }
            }
            return Some(i);
        }
        i += 1;
    }
    None
}

impl Huds {
    /// Records the hud at `at` as lying at `path`.
    fn relocate(&mut self, at: usize, path: Vec<String>)
        requires
            at < old(self)@.huds.len(),
        ensures
            final(self)@ == (HudsView {
                huds: old(self)@.huds.update(
                    at as int,
                    HudView { path: path.deep_view(), ..old(self)@.huds[at as int] },
                ),
                ..old(self)@
            }),
    {
        let mut hud = self.huds[at].clone();
        hud.path = path;
        self.huds.set(at, hud);
        assert(self@.huds =~= old(self)@.huds.update(
            at as int,
            HudView { path: path.deep_view(), ..old(self)@.huds[at as int] },
        ));
    }

    /// Takes one step of making the hud named `hud` the active one under the
    /// content root `root`: takes in what the caller reports, and answers
    /// with what is to be done next.
    pub fn set_active_hud(&mut self, hud: &str, root: &Vec<String>, event: Event) -> (action: Action)
        ensures
            final(self)@ == step(old(self)@, hud@, root.deep_view(), event).0,
            action@ == step(old(self)@, hud@, root.deep_view(), event).1,
    {
        match event {
            Event::Requested { active_present } => {
                if active_present {
                    if let Some(active) = &self.active_hud {
                        if same_name(active.name.as_str(), hud) {
                            return Action::Abort(Error::AlreadyActive);
                        }
                        if find_hud(&self.huds, active.name.as_str()).is_none() {
                            return Action::Abort(Error::NotFound);
                        }
                        if find_hud(&self.huds, hud).is_none() {
                            return Action::Abort(Error::NotFound);
                        }
                        let shelf = child(root, HUDS);
                        return Action::Displace {
                            from: active.path.clone(),
                            to: child(&shelf, active.name.as_str()),
                        };
                    }
                }
                match find_hud(&self.huds, hud) {
                    Some(at) => Action::Install {
                        from: self.huds[at].path.clone(),
                        to: child(root, hud),
                    },
                    None => Action::Abort(Error::NotFound),
                }
            },
            Event::Displaced => {
                let name = match &self.active_hud {
                    Some(active) => active.name.clone(),
                    None => {
                        return Action::Abort(Error::NotFound);
                    },
                };
                let at = match find_hud(&self.huds, name.as_str()) {
                    Some(at) => at,
                    None => {
                        return Action::Abort(Error::NotFound);
                    },
                };
                let next = match find_hud(&self.huds, hud) {
                    Some(next) => next,
                    None => {
                        return Action::Abort(Error::NotFound);
                    },
                };
                let shelf = child(root, HUDS);
                proof {
                    lemma_relocated_keeps_names(
                        self@.huds,
                        name@,
                        shelf_path(root.deep_view(), name@),
                        hud@,
                    );
                }
                self.relocate(at, child(&shelf, name.as_str()));
                assert(self.huds.len() == self@.huds.len());
                Action::Install { from: self.huds[next].path.clone(), to: child(root, hud) }
            },
            Event::Installed => {
                match find_hud(&self.huds, hud) {
                    Some(at) => {
                        self.relocate(at, child(root, hud));
                        assert(self.huds.len() == self@.huds.len());
                        self.active_hud = Some(self.huds[at].clone());
                        Action::Done
                    },
                    None => Action::Abort(Error::NotFound),
                }
            },
            Event::DisplaceFailed => Action::Abort(Error::Io),
            Event::InstallFailed => Action::Abort(Error::Io),
        }
    }
}

} // verus!
