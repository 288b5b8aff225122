//! Narrowing the list of names by a search query.

use nucleo_matcher::pattern::{CaseMatching, Normalization, Pattern};
use nucleo_matcher::Matcher;
use vstd::prelude::*;
use vstd::string::*;
use vstd::utf8::*;
use crate::error::Error;
use crate::name_set::NameSet;

verus! {

/// The longest query, in characters, that is handed to the matcher.
pub const MAX_QUERY_LEN: usize = 2048;

/// The score that `Pattern::score` of the `nucleo_matcher` crate gives
/// `name` for the pattern that `Pattern::parse` makes of `query`, or `None`
/// where it finds that `name` does not match. Case is ignored, no character
/// is normalized, and the matcher has its default configuration.
pub uninterp spec fn fuzzy_score(query: Seq<char>, name: Seq<char>) -> Option<u32>;

/// What the matcher can take: a query of at most [`MAX_QUERY_LEN`]
/// characters, and names whose UTF-8 encodings have at most `u32::MAX` bytes
/// each.
pub open spec fn searchable(query: Seq<char>, names: Seq<Seq<char>>) -> bool {
    &&& query.len() <= MAX_QUERY_LEN
    &&& forall|i: int|
        0 <= i < names.len() ==> encode_utf8(#[trigger] names[i]).len() <= u32::MAX
}

/// The names among `names` that match `query`, each with its score.
pub open spec fn matches_of(query: Seq<char>, names: Seq<Seq<char>>) -> Set<(Seq<char>, u32)> {
    Set::new(
        |entry: (Seq<char>, u32)|
            names.contains(entry.0) && fuzzy_score(query, entry.0) == Some(entry.1),
    )
}

/// Whether none of `names` matches `query`.
pub open spec fn no_match(query: Seq<char>, names: Seq<Seq<char>>) -> bool {
    forall|i: int| 0 <= i < names.len() ==> fuzzy_score(query, #[trigger] names[i]) is None
}

/// Whether `top` is the highest score among `matches`.
pub open spec fn is_top_score(matches: Set<(Seq<char>, u32)>, top: u32) -> bool {
    &&& exists|name: Seq<char>| matches.contains((name, top))
    &&& forall|entry: (Seq<char>, u32)| #[trigger] matches.contains(entry) ==> entry.1 <= top
}

/// The highest score among `matches`.
pub open spec fn top_score(matches: Set<(Seq<char>, u32)>) -> u32 {
    choose|top: u32| is_top_score(matches, top)
}

/// Whether `score` is at least four fifths of `top`. Against a top score of
/// zero no score is.
pub open spec fn within_reach(score: u32, top: u32) -> bool {
    top > 0 && 5 * score >= 4 * top
}

/// The names among `matches` whose score is within reach of the highest.
pub open spec fn relevant_names(matches: Set<(Seq<char>, u32)>) -> Set<Seq<char>> {
    Set::new(
        |name: Seq<char>|
            exists|score: u32| #[trigger]
                matches.contains((name, score)) && within_reach(score, top_score(matches)),
    )
}

/// What a search for `query` among `names` gives: no names for an empty
/// query, which stands for "show everything"; a failure where no name
/// matches; else the matching names within reach of the best.
pub open spec fn filtered(query: Seq<char>, names: Seq<Seq<char>>) -> Result<
    Set<Seq<char>>,
    Error,
> {
    if query.len() == 0 {
        Ok(Set::empty())
    } else if no_match(query, names) {
        Err(Error::NoResults)
    } else {
        Ok(relevant_names(matches_of(query, names)))
    }
}

/// Whether a hud named `name` is to be shown under the selection `found`:
/// a selection without names shows every hud, another one the huds it names.
pub open spec fn shows(found: Set<Seq<char>>, name: Seq<char>) -> bool {
    found == Set::<Seq<char>>::empty() || found.contains(name)
}

/// A set of matches has one highest score at most.
pub proof fn lemma_top_score_unique(matches: Set<(Seq<char>, u32)>, a: u32, b: u32)
    requires
        is_top_score(matches, a),
        is_top_score(matches, b),
    ensures
        a == b,
{
    let x = choose|name: Seq<char>| matches.contains((name, a));
    let y = choose|name: Seq<char>| matches.contains((name, b));
    assert(matches.contains((x, a)));
    assert(matches.contains((y, b)));
}

/// The names among the first `n` of `matches` whose score is within reach
/// of `top`.
spec fn reaching(matches: Seq<(Seq<char>, u32)>, n: int, top: u32) -> Set<Seq<char>> {
    Set::new(
        |name: Seq<char>|
            exists|k: int|
                0 <= k < n && (#[trigger] matches[k]).0 == name && within_reach(matches[k].1, top),
    )
}

/// The names of `matches` whose score is within reach of the highest
/// score; a failure where there is no match at all.
pub fn select_relevant(matches: &Vec<(String, u32)>) -> (found: Result<NameSet, Error>)
    ensures
        matches.len() == 0 ==> found is Err && found->Err_0 == Error::NoResults,
        matches.len() > 0 ==> found is Ok && found->Ok_0@ == relevant_names(
            matches.deep_view().to_set(),
        ),
{
    if matches.len() == 0 {
        return Err(Error::NoResults);
    }
    let ghost all = matches.deep_view();
    let mut top: u32 = matches[0].1;
    let mut i: usize = 1;
    assert(all[0].1 == top);
    while i < matches.len()
        invariant
            1 <= i <= matches.len(),
            all == matches.deep_view(),
            exists|k: int| 0 <= k < i && (#[trigger] all[k]).1 == top,
            forall|k: int| 0 <= k < i ==> (#[trigger] all[k]).1 <= top,
        decreases matches.len() - i,
    {
        assert(all[i as int].1 == matches[i as int].1);
        if matches[i].1 > top {
            top = matches[i].1;
        }
        i += 1;
    }
    proof {
        let k = choose|k: int| 0 <= k < all.len() && (#[trigger] all[k]).1 == top;
        assert(all[k] == (all[k].0, top));
        assert(all.to_set().contains((all[k].0, top)));
        assert forall|entry: (Seq<char>, u32)| #[trigger]
            all.to_set().contains(entry) implies entry.1 <= top by {
            let j = choose|j: int| 0 <= j < all.len() && all[j] == entry;
            assert(all[j].1 <= top);
        }
        assert(is_top_score(all.to_set(), top));
        lemma_top_score_unique(all.to_set(), top, top_score(all.to_set()));
    }
    let mut names = NameSet::new();
    let mut j: usize = 0;
    assert(names@ =~= reaching(all, 0, top));
    while j < matches.len()
        invariant
            j <= matches.len(),
            all == matches.deep_view(),
            names@ == reaching(all, j as int, top),
        decreases matches.len() - j,
    {
        let score: u32 = matches[j].1;
        let ghost before = names@;
        assert(all[j as int] == (matches[j as int].0@, score));
        if top > 0 && 5 * (score as u64) >= 4 * (top as u64) {
            names.insert(matches[j].0.clone());
        }
        proof {
            let after = reaching(all, j + 1, top);
            assert forall|name: Seq<char>| after.contains(name) <==> names@.contains(name) by {
                if after.contains(name) {
                    let k = choose|k: int|
                        0 <= k < j + 1 && (#[trigger] all[k]).0 == name && within_reach(
                            all[k].1,
                            top,
                        );
                    if k < j {
                        assert(before.contains(name));
                    }
                }
                if names@.contains(name) {
                    if before.contains(name) {
                        let k = choose|k: int|
                            0 <= k < j && (#[trigger] all[k]).0 == name && within_reach(
                                all[k].1,
                                top,
                            );
                        assert(0 <= k < j + 1);
                    } else {
                        assert(all[j as int].0 == name);
                    }
                }
            }
            assert(names@ =~= after);
        }
        j += 1;
    }
    proof {
        let wanted = relevant_names(all.to_set());
        assert forall|name: Seq<char>| names@.contains(name) <==> wanted.contains(name) by {
            if names@.contains(name) {
                let k = choose|k: int|
                    0 <= k < all.len() && (#[trigger] all[k]).0 == name && within_reach(
                        all[k].1,
                        top,
                    );
                assert(all[k] == (name, all[k].1));
                assert(all.to_set().contains((name, all[k].1)));
            }
            if wanted.contains(name) {
                let score = choose|score: u32| #[trigger]
                    all.to_set().contains((name, score)) && within_reach(
                        score,
                        top_score(all.to_set()),
                    );
                let k = choose|k: int| 0 <= k < all.len() && all[k] == (name, score);
                assert(all[k].0 == name);
            }
        }
        assert(names@ =~= wanted);
    }
    Ok(names)
}

/// Whether a hud named `name` is to be shown under the selection `found`.
pub fn is_shown(found: &NameSet, name: &str) -> (shown: bool)
    ensures
        shown == shows(found@, name@),
{
    found.is_empty() || found.contains(name)
}

/// The names among `names` that match `query`, each with its score.
///
/// Trusted: `Pattern::parse` with `CaseMatching::Ignore` and
/// `Normalization::Never`, then `Pattern::match_list` with a matcher of the
/// default configuration. That scores each name with `Pattern::score` and
/// hands back those that have a score, each with it. The matcher panics on a
/// name that it takes to be longer than `u32::MAX`; it counts a name in
/// grapheme clusters, or in bytes where each cluster begins with an ASCII
/// character, so a name of at most `u32::MAX` bytes is within the limit
/// however it is counted. It adds up the score of a word
/// of the query in 16 bits, at most 36 points for the first character of the
/// word and 26 for each further one: with a query of at most
/// [`MAX_QUERY_LEN`] characters these sums stay in range.
#[verifier::external_body]
fn match_names(query: &str, names: &Vec<String>) -> (scored: Vec<(String, u32)>)
    requires
        searchable(query@, names.deep_view()),
    ensures
        scored.deep_view().to_set() == Set::new(
            |entry: (Seq<char>, u32)|
                names.deep_view().contains(entry.0) && fuzzy_score(query@, entry.0) == Some(
                    entry.1,
                ),
        ),
{
    let pattern = Pattern::parse(query, CaseMatching::Ignore, Normalization::Never);
    let mut matcher = Matcher::default();
    let ranked = pattern.match_list(names.iter(), &mut matcher);
    ranked.into_iter().map(|(name, score)| (name.clone(), score)).collect()
}

/// Narrows `names` by `query`: an empty query selects nothing, which stands
/// for "show everything"; a query that no name matches fails; otherwise the
/// matching names are selected whose score is at least four fifths of the
/// best score.
pub fn filter(query: &str, names: &Vec<String>) -> (found: Result<NameSet, Error>)
    requires
        searchable(query@, names.deep_view()),
    ensures
        match filtered(query@, names.deep_view()) {
            Ok(selected) => found is Ok && found->Ok_0@ == selected,
            Err(error) => found is Err && found->Err_0 == error,
        },
{
    if query.is_empty() {
        return Ok(NameSet::new());
    }
    let scored = match_names(query, names);
    proof {
        let all = names.deep_view();
        let entries = scored.deep_view();
        assert(entries.to_set() =~= matches_of(query@, all));
        if entries.len() > 0 {
            assert(entries.to_set().contains(entries[0]));
            let k = choose|k: int| 0 <= k < all.len() && all[k] == entries[0].0;
            assert(fuzzy_score(query@, all[k]) is Some);
        } else {
            assert forall|i: int| 0 <= i < all.len() implies fuzzy_score(
                query@,
                #[trigger] all[i],
            ) is None by {
                if let Some(score) = fuzzy_score(query@, all[i]) {
                    assert(all.contains(all[i]));
                    assert(matches_of(query@, all).contains((all[i], score)));
                    assert(entries.contains((all[i], score)));
                }
            }
        }
    }
    select_relevant(&scored)
}

/// Whether the matcher can take `query` and `names`.
pub fn is_searchable(query: &str, names: &Vec<String>) -> (fits: bool)
    ensures
        fits == searchable(query@, names.deep_view()),
{
    if query.unicode_len() > MAX_QUERY_LEN {
        return false;
    }
    let ghost all = names.deep_view();
    let mut i: usize = 0;
    while i < names.len()
        invariant
            i <= names.len(),
            all == names.deep_view(),
            forall|k: int| 0 <= k < i ==> encode_utf8(#[trigger] all[k]).len() <= u32::MAX,
        decreases names.len() - i,
    {
        let bytes = names[i].as_str().as_bytes();
        if bytes.len() as u64 > u32::MAX as u64 {
            assert(encode_utf8(all[i as int]).len() > u32::MAX);
            return false;
        }
        i += 1;
    }
    true
}

/// Narrows `names` by `query` as [`filter`] does, where the matcher can take
/// them; says `None` where it cannot.
pub fn try_filter(query: &str, names: &Vec<String>) -> (found: Option<Result<NameSet, Error>>)
    ensures
        found is Some <==> searchable(query@, names.deep_view()),
        found matches Some(outcome) ==> match filtered(query@, names.deep_view()) {
            Ok(selected) => outcome is Ok && outcome->Ok_0@ == selected,
            Err(error) => outcome is Err && outcome->Err_0 == error,
        },
{
    if is_searchable(query, names) {
        Some(filter(query, names))
    } else {
        None
    }
}

} // verus!
