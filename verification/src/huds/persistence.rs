//! Keeping the favorites: what is written to the favorites file, and what
//! is taken from it.

use vstd::prelude::*;
use vstd::string::*;
use vstd::utf8::*;
use crate::error::Error;
use crate::favorites::{favorite_lines, join_lines, parse_favorites, read_text, render_favorites};
use crate::hud::HudView;
use crate::huds::{names_of, Huds};

verus! {

/// How many huds at the head of `huds` are favorites, one after the other.
pub open spec fn leading_favorites(huds: Seq<HudView>) -> nat
    decreases huds.len(),
{
    if huds.len() > 0 && huds[0].favorite {
        1 + leading_favorites(huds.drop_first())
    } else {
        0
    }
}

/// The names of the favorites at the head of `huds`, in their order.
pub open spec fn leading_favorite_names(huds: Seq<HudView>) -> Seq<Seq<char>> {
    names_of(huds.take(leading_favorites(huds) as int))
}

/// The favorites at the head of `huds` are favorites, and the hud behind
/// them, if there is one, is none.
pub proof fn lemma_leading_favorites(huds: Seq<HudView>)
    ensures
        leading_favorites(huds) <= huds.len(),
        forall|i: int| 0 <= i < leading_favorites(huds) ==> huds[i].favorite,
        leading_favorites(huds) < huds.len() ==> !huds[leading_favorites(huds) as int].favorite,
    decreases huds.len(),
{
    if huds.len() > 0 && huds[0].favorite {
        let rest = huds.drop_first();
        lemma_leading_favorites(rest);
        assert forall|i: int| 0 <= i < leading_favorites(huds) implies huds[i].favorite by {
            if i > 0 {
                assert(huds[i] == rest[i - 1]);
            }
        }
        if leading_favorites(huds) < huds.len() {
            assert(huds[leading_favorites(huds) as int] == rest[leading_favorites(rest) as int]);
        }
    }
}

impl Huds {
    /// Makes the favorites the names of the favorites at the head of the
    /// list, and hands back the content of the favorites file that lists
    /// them, one per line in their order.
    pub fn save_favorites(&mut self) -> (content: String)
        ensures
            content@ == join_lines(leading_favorite_names(old(self)@.huds)),
            final(self)@.favorites == leading_favorite_names(old(self)@.huds).to_set(),
            final(self)@.huds == old(self)@.huds,
            final(self)@.active_hud == old(self)@.active_hud,
    {
        let ghost huds = self@.huds;
        let mut names: Vec<String> = Vec::new();
        self.favorites.clear();
        let mut i: usize = 0;
        proof {
            lemma_leading_favorites(huds);
            assert(names.deep_view() =~= names_of(huds.take(0)));
            assert(names.deep_view().to_set() =~= Set::<Seq<char>>::empty());
        }
        while i < self.huds.len() && self.huds[i].favorite
            invariant
                i <= self.huds.len(),
                self@.huds == huds,
                self@.active_hud == old(self)@.active_hud,
                forall|k: int| 0 <= k < i ==> huds[k].favorite,
                names.deep_view() == names_of(huds.take(i as int)),
                self@.favorites == names.deep_view().to_set(),
            decreases self.huds.len() - i,
        {
            let name = self.huds[i].name.clone();
            let ghost listed = names.deep_view();
            self.favorites.insert(name.clone());
            names.push(name);
            proof {
                assert(names.deep_view() =~= listed.push(name@));
                assert(names.deep_view() =~= names_of(huds.take(i + 1)));
                listed.lemma_push_to_set_commute(name@);
            }
            i += 1;
        }
        proof {
            lemma_leading_favorites(huds);
            let n = leading_favorites(huds) as int;
            if i < n {
                assert(huds[i as int].favorite);
            }
            if n < i {
                assert(huds[n].favorite);
            }
        }
        render_favorites(&names)
    }

    /// Makes the favorites the names that a favorites file with the given
    /// content lists: its lines that are not empty. Content that is not
    /// UTF-8 is refused, and leaves no favorites.
    pub fn update_favorites(&mut self, content: &[u8]) -> (done: Result<(), Error>)
        ensures
            final(self)@.huds == old(self)@.huds,
            final(self)@.active_hud == old(self)@.active_hud,
            valid_utf8(content@) ==> done is Ok && final(self)@.favorites == favorite_lines(
                decode_utf8(content@),
            ),
            !valid_utf8(content@) ==> done == Err::<(), Error>(Error::Encoding)
                && final(self)@.favorites == Set::<Seq<char>>::empty(),
    {
        match read_text(content) {
            Some(text) => {
                self.favorites = parse_favorites(text.as_str());
                Ok(())
            },
            None => {
                self.favorites.clear();
                Err(Error::Encoding)
            },
        }
    }
}

} // verus!
