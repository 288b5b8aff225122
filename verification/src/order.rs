//! Keeping a list of huds in display order.

use vstd::prelude::*;
use vstd::multiset::Multiset;
use vstd::seq_lib::*;
use vstd::utf8::*;
use crate::hud::{hud_le, Hud, HudView};
use crate::text::{lemma_bytes_le_total, lemma_bytes_le_trans};

verus! {

/// Every hud stands at or before each hud that follows it.
pub open spec fn sorted(huds: Seq<HudView>) -> bool {
    forall|i: int, j: int| 0 <= i < j < huds.len() ==> hud_le(huds[i], huds[j])
}

/// `after` holds the huds of `before`, each as often, in display order.
pub open spec fn is_sorting_of(after: Seq<HudView>, before: Seq<HudView>) -> bool {
    &&& sorted(after)
    &&& after.to_multiset() == before.to_multiset()
}

/// Of two huds, one stands at or before the other.
pub proof fn lemma_hud_le_total(a: HudView, b: HudView)
    ensures
        hud_le(a, b) || hud_le(b, a),
{
    lemma_bytes_le_total(encode_utf8(a.name), encode_utf8(b.name));
}

/// The display order is transitive.
pub proof fn lemma_hud_le_trans(a: HudView, b: HudView, c: HudView)
    requires
        hud_le(a, b),
        hud_le(b, c),
    ensures
        hud_le(a, c),
{
    if a.favorite == b.favorite && b.favorite == c.favorite {
        lemma_bytes_le_trans(encode_utf8(a.name), encode_utf8(b.name), encode_utf8(c.name));
    }
}

/// A list without huds holds nothing, however it is counted.
proof fn lemma_empty_multiset(s: Seq<HudView>, other: Multiset<HudView>)
    requires
        s.len() == 0,
    ensures
        s.to_multiset().add(other) == other,
        other.add(s.to_multiset()) == other,
{
    broadcast use vstd::multiset::group_multiset_axioms;

    to_multiset_len(s);
    assert(s.to_multiset() =~= Multiset::<HudView>::empty());
    assert(s.to_multiset().add(other) =~= other);
    assert(other.add(s.to_multiset()) =~= other);
}

/// The first index whose hud does not stand before `hud`.
fn insertion_point(huds: &Vec<Hud>, hud: &Hud) -> (at: usize)
    ensures
        at <= huds.len(),
        forall|i: int| 0 <= i < at ==> !hud_le(hud@, #[trigger] huds.deep_view()[i]),
        at < huds.len() ==> hud_le(hud@, huds.deep_view()[at as int]),
{
    let mut at: usize = 0;
    while at < huds.len() && !hud.at_or_before(&huds[at])
        invariant
            at <= huds.len(),
            forall|i: int| 0 <= i < at ==> !hud_le(hud@, #[trigger] huds.deep_view()[i]),
        decreases huds.len() - at,
    {
        at += 1;
    }
    at
}

/// Puts `huds` in display order.
pub fn sort_huds(huds: &mut Vec<Hud>)
    ensures
        is_sorting_of(final(huds).deep_view(), old(huds).deep_view()),
{
    let ghost before = huds.deep_view();
    let mut rest: Vec<Hud> = Vec::new();
    std::mem::swap(huds, &mut rest);
    assert(rest.deep_view() =~= before);
    proof {
        lemma_empty_multiset(huds.deep_view(), before.to_multiset());
    }
    while rest.len() > 0
        invariant
            sorted(huds.deep_view()),
            huds.deep_view().to_multiset().add(rest.deep_view().to_multiset())
                == before.to_multiset(),
        decreases rest.len(),
    {
        let ghost placed = huds.deep_view();
        let ghost waiting = rest.deep_view();
        let hud = rest.pop().unwrap();
        let at = insertion_point(huds, &hud);
        huds.insert(at, hud);
        proof {
            let now = huds.deep_view();
            assert(rest.deep_view() =~= waiting.drop_last());
            assert(waiting =~= rest.deep_view().push(hud@));
            assert(now =~= placed.insert(at as int, hud@));
            to_multiset_build(rest.deep_view(), hud@);
            to_multiset_insert(placed, at as int, hud@);
            assert(now.to_multiset().add(rest.deep_view().to_multiset()) =~= placed.to_multiset().add(
                waiting.to_multiset(),
            ));
            assert forall|i: int, j: int| 0 <= i < j < now.len() implies hud_le(now[i], now[j]) by {
                if j == at {
                    lemma_hud_le_total(now[i], hud@);
                    assert(now[i] == placed[i]);
                } else if i == at {
                    assert(now[j] == placed[j - 1]);
                    if j - 1 > at {
                        lemma_hud_le_trans(hud@, placed[at as int], placed[j - 1]);
                    }
                } else if i < at && j > at {
                    assert(now[i] == placed[i]);
                    assert(now[j] == placed[j - 1]);
                } else if i < at {
                    assert(now[i] == placed[i]);
                    assert(now[j] == placed[j]);
                } else {
                    assert(now[i] == placed[i - 1]);
                    assert(now[j] == placed[j - 1]);
                }
            }
        }
    }
    proof {
        lemma_empty_multiset(rest.deep_view(), huds.deep_view().to_multiset());
    }
}

} // verus!
