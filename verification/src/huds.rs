//! The collection: the huds found on disk, the active one, and the favorites.

use vstd::prelude::*;
use vstd::string::*;
use crate::error::Error;
use crate::hud::{Hud, HudView};
use crate::name_set::NameSet;
use crate::order::{is_sorting_of, sort_huds};
use crate::search::{filter, filtered, searchable, try_filter};

pub mod activation;
pub mod persistence;
pub mod scan;

verus! {

/// The huds of one content folder.
#[derive(Debug)]
pub struct Huds {
    /// Every hud found by the last scan, in display order.
    pub huds: Vec<Hud>,
    /// The hud that lies at the content root, if there is one.
    pub active_hud: Option<Hud>,
    favorites: NameSet,
}

/// What a [`Huds`] holds, as mathematical values.
pub struct HudsView {
    pub huds: Seq<HudView>,
    pub active_hud: Option<HudView>,
    pub favorites: Set<Seq<char>>,
}

impl View for Huds {
    type V = HudsView;

    closed spec fn view(&self) -> HudsView {
        HudsView {
            huds: self.huds.deep_view(),
            active_hud: self.active_hud.deep_view(),
            favorites: self.favorites@,
        }
    }
}

/// The names of `huds`, in their order.
pub open spec fn names_of(huds: Seq<HudView>) -> Seq<Seq<char>> {
    huds.map_values(|hud: HudView| hud.name)
}

impl Default for Huds {
    fn default() -> (huds: Huds)
        ensures
            huds@ == (HudsView {
                huds: Seq::empty(),
                active_hud: None,
                favorites: Set::empty(),
            }),
    {
        Huds::new()
    }
}

impl Huds {
    /// A collection without huds and without favorites.
    pub fn new() -> (huds: Huds)
        ensures
            huds@ == (HudsView {
                huds: Seq::empty(),
                active_hud: None,
                favorites: Set::empty(),
            }),
    {
        let huds = Huds { huds: Vec::new(), active_hud: None, favorites: NameSet::new() };
        assert(huds.huds.deep_view() =~= Seq::<HudView>::empty());
        huds
    }

    /// The huds, in the order in which they are held.
    pub fn huds(&self) -> (huds: &Vec<Hud>)
        ensures
            huds.deep_view() == self@.huds,
    {
        &self.huds
    }

    /// The active hud, if there is one.
    pub fn active_hud(&self) -> (active: &Option<Hud>)
        ensures
            active.deep_view() == self@.active_hud,
    {
        &self.active_hud
    }

    /// The names marked as favorites.
    pub fn favorites(&self) -> (names: &NameSet)
        ensures
            names@ == self@.favorites,
    {
        &self.favorites
    }

    /// Flips the favorite flag of the hud at `at` in the list, and says
    /// whether there is such a hud. The list is not put in order again, and
    /// the favorites are not touched.
    pub fn toggle_favorite(&mut self, at: usize) -> (done: bool)
        ensures
            done == (at < old(self)@.huds.len()),
            done ==> final(self)@ == (HudsView {
                huds: old(self)@.huds.update(
                    at as int,
                    HudView {
                        favorite: !old(self)@.huds[at as int].favorite,
                        ..old(self)@.huds[at as int]
                    },
                ),
                ..old(self)@
            }),
            !done ==> final(self)@ == old(self)@,
    {
        if at >= self.huds.len() {
            return false;
        }
        let mut hud = self.huds[at].clone();
        hud.favorite = !hud.favorite;
        self.huds.set(at, hud);
        assert(self@.huds =~= old(self)@.huds.update(
            at as int,
            HudView {
                favorite: !old(self)@.huds[at as int].favorite,
                ..old(self)@.huds[at as int]
            },
        ));
        true
    }

    /// The names of the huds, in display order.
    pub fn names(&self) -> (names: Vec<String>)
        ensures
            names.deep_view() == names_of(self@.huds),
    {
        let mut names: Vec<String> = Vec::new();
        let mut i: usize = 0;
        assert(names.deep_view() =~= names_of(self@.huds.take(0)));
        while i < self.huds.len()
            invariant
                i <= self.huds.len(),
                names.deep_view() == names_of(self@.huds.take(i as int)),
            decreases self.huds.len() - i,
        {
            let ghost listed = names.deep_view();
            names.push(self.huds[i].name.clone());
            assert(names.deep_view() =~= listed.push(self@.huds[i as int].name));
            assert(names.deep_view() =~= names_of(self@.huds.take(i + 1)));
            i += 1;
        }
        assert(self@.huds.take(i as int) =~= self@.huds);
        names
    }

    /// Narrows the huds by `query`: see [`filter`].
    pub fn search(&self, query: &str) -> (found: Result<NameSet, Error>)
        requires
            searchable(query@, names_of(self@.huds)),
        ensures
            match filtered(query@, names_of(self@.huds)) {
                Ok(selected) => found is Ok && found->Ok_0@ == selected,
                Err(error) => found is Err && found->Err_0 == error,
            },
    {
        let names = self.names();
        filter(query, &names)
    }

    /// Narrows the huds by `query` where the matcher can take the query and
    /// the names of the huds; says `None` where it cannot. See
    /// [`try_filter`].
    pub fn try_search(&self, query: &str) -> (found: Option<Result<NameSet, Error>>)
        ensures
            found is Some <==> searchable(query@, names_of(self@.huds)),
            found matches Some(outcome) ==> match filtered(query@, names_of(self@.huds)) {
                Ok(selected) => outcome is Ok && outcome->Ok_0@ == selected,
                Err(error) => outcome is Err && outcome->Err_0 == error,
            },
    {
        let names = self.names();
        try_filter(query, &names)
    }

    /// Puts the huds in display order again, as after a change of a
    /// favorite flag.
    pub fn sort(&mut self)
        ensures
            is_sorting_of(final(self)@.huds, old(self)@.huds),
            final(self)@.active_hud == old(self)@.active_hud,
            final(self)@.favorites == old(self)@.favorites,
    {
        sort_huds(&mut self.huds);
    }
}

} // verus!
