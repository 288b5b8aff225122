//! Scanning: rebuilding the list of huds from what lies in the content
//! folder.

use vstd::prelude::*;
use vstd::string::*;
use crate::hud::{hud_of_descriptor, Hud, HudView};
use crate::huds::Huds;
use crate::order::{is_sorting_of, sort_huds};
use crate::path::{
    child, ends_in, lies_within, path_ends_in, path_lies_within, HUDS, INFO_VDF, SCAN_DEPTH,
};

verus! {

/// Whether `entry` is a descriptor file inside a named folder.
pub open spec fn is_descriptor(entry: Seq<Seq<char>>) -> bool {
    entry.len() >= 2 && ends_in(entry, INFO_VDF@)
}

/// Whether `entry` marks a hud for a search of the folder `base`: it is a
/// descriptor file that lies at most [`SCAN_DEPTH`] levels below `base`.
pub open spec fn marks_hud(base: Seq<Seq<char>>, entry: Seq<Seq<char>>) -> bool {
    is_descriptor(entry) && lies_within(base, entry, SCAN_DEPTH as nat)
}

/// [`marks_hud`] for the folder `base`, as a predicate to filter by.
pub open spec fn descriptor_test(base: Seq<Seq<char>>) -> spec_fn(Seq<Seq<char>>) -> bool {
    |entry: Seq<Seq<char>>| marks_hud(base, entry)
}

/// The entries among `entries` that mark a hud for a search of the folder
/// `base`, in the order in which they came.
pub open spec fn descriptors(base: Seq<Seq<char>>, entries: Seq<Seq<Seq<char>>>) -> Seq<
    Seq<Seq<char>>,
> {
    entries.filter(descriptor_test(base))
}

/// The hud that the descriptor at `entry` marks, flagged as a favorite
/// exactly if its name is among `favorites`.
pub open spec fn scanned_hud(entry: Seq<Seq<char>>, favorites: Set<Seq<char>>) -> HudView {
    let hud = hud_of_descriptor(entry);
    HudView { favorite: favorites.contains(hud.name), ..hud }
}

/// [`scanned_hud`] for the given favorites, as a function to map by.
pub open spec fn scan_with(favorites: Set<Seq<char>>) -> spec_fn(Seq<Seq<char>>) -> HudView {
    |entry: Seq<Seq<char>>| scanned_hud(entry, favorites)
}

/// The active hud that a scan finds: the one marked by the first descriptor
/// under the content root.
pub open spec fn scanned_active(
    root: Seq<Seq<char>>,
    root_entries: Seq<Seq<Seq<char>>>,
    favorites: Set<Seq<char>>,
) -> Option<HudView> {
    let found = descriptors(root, root_entries);
    if found.len() > 0 {
        Some(scanned_hud(found[0], favorites))
    } else {
        None
    }
}

/// The huds that a scan finds, before they are put in order: the active one,
/// then one for each descriptor under the folder of the other huds.
pub open spec fn scanned_huds(
    root: Seq<Seq<char>>,
    root_entries: Seq<Seq<Seq<char>>>,
    huds_entries: Seq<Seq<Seq<char>>>,
    favorites: Set<Seq<char>>,
) -> Seq<HudView> {
    let rest = descriptors(root.push(HUDS@), huds_entries).map_values(scan_with(favorites));
    match scanned_active(root, root_entries, favorites) {
        Some(active) => seq![active] + rest,
        None => rest,
    }
}

/// Whether `entry` is a descriptor file inside a named folder.
pub fn is_descriptor_path(entry: &Vec<String>) -> (r: bool)
    ensures
        r == is_descriptor(entry.deep_view()),
{
    entry.len() >= 2 && path_ends_in(entry, INFO_VDF)
}

/// Whether `entry` marks a hud for a search of the folder `base`.
pub fn marks_hud_path(base: &Vec<String>, entry: &Vec<String>) -> (r: bool)
    ensures
        r == marks_hud(base.deep_view(), entry.deep_view()),
{
    is_descriptor_path(entry) && path_lies_within(base, entry, SCAN_DEPTH)
}

impl Huds {
    /// The hud that the descriptor at `entry` marks, with its favorite flag.
    fn found(&self, entry: &Vec<String>) -> (hud: Hud)
        requires
            is_descriptor(entry.deep_view()),
        ensures
            hud@ == scanned_hud(entry.deep_view(), self@.favorites),
    {
        let vdf = entry.clone();
        assert(vdf.deep_view() =~= entry.deep_view());
        let mut hud = Hud::from_vdf(vdf);
        hud.favorite = self.favorites.contains(hud.name.as_str());
        hud
    }

    /// Rebuilds the list of huds and the active hud from what a walk of the
    /// content folder at `root` found: `root_entries` under the content root
    /// itself, `huds_entries` under its folder of huds not in use. The first
    /// descriptor among the former that lies at most [`SCAN_DEPTH`] levels
    /// below the root marks the active hud; each descriptor among the latter
    /// that lies at most as far below that folder marks one more hud. Each
    /// hud is a favorite exactly if its name is among the favorites. The
    /// list is put in display order. The favorites stay as they are.
    pub fn scan_for_huds(
        &mut self,
        root: &Vec<String>,
        root_entries: &Vec<Vec<String>>,
        huds_entries: &Vec<Vec<String>>,
    )
        ensures
            final(self)@.favorites == old(self)@.favorites,
            final(self)@.active_hud == scanned_active(
                root.deep_view(),
                root_entries.deep_view(),
                old(self)@.favorites,
            ),
            is_sorting_of(
                final(self)@.huds,
                scanned_huds(
                    root.deep_view(),
                    root_entries.deep_view(),
                    huds_entries.deep_view(),
                    old(self)@.favorites,
                ),
            ),
    {
        let ghost favorites = self@.favorites;
        let ghost top = root.deep_view();
        let ghost roots = root_entries.deep_view();
        let ghost others = huds_entries.deep_view();
        let shelf = child(root, HUDS);
        self.huds.clear();
        self.active_hud = None;

        let mut i: usize = 0;
        assert(roots.take(roots.len() as int) =~= roots);
        while i < root_entries.len()
            invariant_except_break
                descriptors(top, roots.take(i as int)).len() == 0,
                self@.active_hud == None::<HudView>,
                self@.huds == Seq::<HudView>::empty(),
            invariant
                i <= root_entries.len(),
                top == root.deep_view(),
                roots == root_entries.deep_view(),
                roots.take(roots.len() as int) == roots,
                self@.favorites == favorites,
            ensures
                self@.favorites == favorites,
                self@.active_hud == scanned_active(top, roots, favorites),
                self@.huds == match scanned_active(top, roots, favorites) {
                    Some(active) => seq![active],
                    None => Seq::<HudView>::empty(),
                },
            decreases root_entries.len() - i,
        {
            let ghost seen = roots.take(i as int);
            proof {
                assert(roots.take(i + 1) =~= seen.push(roots[i as int]));
                seen.lemma_filter_push(roots[i as int], descriptor_test(top));
            }
            if marks_hud_path(root, &root_entries[i]) {
                let hud = self.found(&root_entries[i]);
                self.huds.push(hud.clone());
                self.active_hud = Some(hud);
                proof {
                    let first = roots.take(i + 1);
                    let later = roots.skip(i + 1);
                    assert(roots =~= first + later);
                    Seq::filter_distributes_over_add(first, later, descriptor_test(top));
                    assert(descriptors(top, roots)[0] == roots[i as int]);
                    assert(self@.huds =~= seq![hud@]);
                }
                break;
            }
            i += 1;
        }

        let ghost head = self@.huds;
        let mut j: usize = 0;
        while j < huds_entries.len()
            invariant
                j <= huds_entries.len(),
                others == huds_entries.deep_view(),
                shelf.deep_view() == top.push(HUDS@),
                self@.favorites == favorites,
                self@.active_hud == scanned_active(top, roots, favorites),
                self@.huds == head + descriptors(
                    shelf.deep_view(),
                    others.take(j as int),
                ).map_values(scan_with(favorites)),
            decreases huds_entries.len() - j,
        {
            let ghost seen = others.take(j as int);
            proof {
                assert(others.take(j + 1) =~= seen.push(others[j as int]));
                seen.lemma_filter_push(others[j as int], descriptor_test(shelf.deep_view()));
            }
            if marks_hud_path(&shelf, &huds_entries[j]) {
                let hud = self.found(&huds_entries[j]);
                let ghost prior = self@.huds;
                self.huds.push(hud);
                proof {
                    let known = descriptors(shelf.deep_view(), seen);
                    assert(self@.huds =~= prior.push(hud@));
                    assert(descriptors(shelf.deep_view(), others.take(j + 1)) == known.push(
                        others[j as int],
                    ));
                    assert(known.push(others[j as int]).map_values(scan_with(favorites))
                        =~= known.map_values(scan_with(favorites)).push(hud@));
                    assert(self@.huds =~= head + descriptors(
                        shelf.deep_view(),
                        others.take(j + 1),
                    ).map_values(scan_with(favorites)));
                }
            }
            j += 1;
        }
        proof {
            assert(others.take(j as int) =~= others);
            assert(self@.huds =~= scanned_huds(top, roots, others, favorites));
        }
        sort_huds(&mut self.huds);
    }
}

} // verus!
