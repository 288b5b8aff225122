//! One hud: a named folder that may be marked as a favorite.

use std::cmp::Ordering;
use vstd::prelude::*;
use vstd::string::*;
use vstd::std_specs::cmp::{PartialEqSpecImpl, PartialOrdSpecImpl};
use crate::path::same_path;
use crate::text::{name_at_or_before, name_le, same_name};

verus! {

/// A hud found on disk.
#[derive(Debug)]
pub struct Hud {
    /// The name of the hud's folder; it identifies the hud.
    pub name: String,
    /// Where the folder lies, component by component.
    pub path: Vec<String>,
    /// Whether the user marked the hud as a favorite.
    pub favorite: bool,
}

/// What a [`Hud`] holds, as mathematical values.
pub struct HudView {
    pub name: Seq<char>,
    pub path: Seq<Seq<char>>,
    pub favorite: bool,
}

impl View for Hud {
    type V = HudView;

    open spec fn view(&self) -> HudView {
        HudView { name: self.name@, path: self.path.deep_view(), favorite: self.favorite }
    }
}

impl DeepView for Hud {
    type V = HudView;

    open spec fn deep_view(&self) -> HudView {
        self@
    }
}

/// The hud whose descriptor file lies at `vdf`: the folder that holds the
/// file, named by its last component, not a favorite.
pub open spec fn hud_of_descriptor(vdf: Seq<Seq<char>>) -> HudView {
    HudView { name: vdf[vdf.len() - 2], path: vdf.drop_last(), favorite: false }
}

/// The display order: favorites come first, and among huds that agree on
/// that, names go by their bytes.
pub open spec fn hud_le(a: HudView, b: HudView) -> bool {
    if a.favorite == b.favorite {
        name_le(a.name, b.name)
    } else {
        a.favorite
    }
}

/// How `a` is ordered against `b` for display.
pub open spec fn hud_order(a: HudView, b: HudView) -> Ordering {
    if !hud_le(a, b) {
        Ordering::Greater
    } else if hud_le(b, a) {
        Ordering::Equal
    } else {
        Ordering::Less
    }
}

impl PartialEq for Hud {
    fn eq(&self, other: &Hud) -> (r: bool) {
        self.favorite == other.favorite && same_name(self.name.as_str(), other.name.as_str())
            && same_path(&self.path, &other.path)
    }
}

impl PartialEqSpecImpl for Hud {
    open spec fn obeys_eq_spec() -> bool {
        true
    }

    open spec fn eq_spec(&self, other: &Hud) -> bool {
        self@ == other@
    }
}

impl Eq for Hud {

}

impl PartialOrd for Hud {
    fn partial_cmp(&self, other: &Hud) -> (r: Option<Ordering>) {
        Some(self.cmp(other))
    }
}

impl PartialOrdSpecImpl for Hud {
    open spec fn obeys_partial_cmp_spec() -> bool {
        true
    }

    open spec fn partial_cmp_spec(&self, other: &Hud) -> Option<Ordering> {
        Some(hud_order(self@, other@))
    }
}

impl Clone for Hud {
    fn clone(&self) -> (copy: Hud)
        ensures
            copy@ == self@,
    {
        let path = self.path.clone();
        assert(path.deep_view() =~= self.path.deep_view());
        Hud { name: self.name.clone(), path, favorite: self.favorite }
    }
}

impl Hud {
    /// The hud that the descriptor file at `vdf` marks.
    pub fn from_vdf(vdf: Vec<String>) -> (hud: Hud)
        requires
            vdf.len() >= 2,
        ensures
            hud@ == hud_of_descriptor(vdf.deep_view()),
    {
        let mut path = vdf;
        path.pop();
        let name = path[path.len() - 1].clone();
        assert(path.deep_view() =~= vdf.deep_view().drop_last());
        Hud { name, path, favorite: false }
    }

    /// Whether this hud is shown at or before `other`.
    pub fn at_or_before(&self, other: &Hud) -> (r: bool)
        ensures
            r == hud_le(self@, other@),
    {
        if self.favorite == other.favorite {
            name_at_or_before(self.name.as_str(), other.name.as_str())
        } else {
            self.favorite
        }
    }

    /// How this hud is ordered against `other` for display.
    pub fn cmp(&self, other: &Hud) -> (r: Ordering)
        ensures
            r == hud_order(self@, other@),
    {
        if !self.at_or_before(other) {
            Ordering::Greater
        } else if other.at_or_before(self) {
            Ordering::Equal
        } else {
            Ordering::Less
        }
    }
}

} // verus!
