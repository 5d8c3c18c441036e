//! The path of a word: from the typed word and a layout to the waypoints and
//! the resampled path.

use crate::geometry::{polyline_length, Point};
use crate::layout::{center_of, Layout};
use crate::resample::{at_density, resample, resampled, density_path, Resampling};
use crate::waypoints::{
    lemma_retained_all, lemma_retained_len, lemma_retained_repeat, retained, spaced, Waypoints,
};
use crate::word::{
    ascii_lower, lemma_normalize_ends, lemma_normalize_push, lowered, normalize, normalize_word,
};
use vstd::prelude::*;

verus! {

/// The centre of the first letter's key, for a word that has a letter.
pub open spec fn first_center(word: Seq<char>, keys: Map<Seq<char>, Point>) -> Option<Point> {
    if word.len() > 0 {
        center_of(keys, word[0])
    } else {
        None
    }
}

/// The centre of the last letter's key, for a word of two letters or more.
pub open spec fn last_center(word: Seq<char>, keys: Map<Seq<char>, Point>) -> Option<Point> {
    if word.len() > 1 {
        center_of(keys, word[word.len() - 1])
    } else {
        None
    }
}

/// Every letter of the word names a key.
pub open spec fn resolvable(word: Seq<char>, keys: Map<Seq<char>, Point>) -> bool {
    forall|i: int| 0 <= i < word.len() ==> keys.contains_key(seq![#[trigger] word[i]])
}

/// The key centres of the word's letters, in the word's order.
pub open spec fn centers(word: Seq<char>, keys: Map<Seq<char>, Point>) -> Seq<Point> {
    Seq::new(word.len(), |i: int| keys[seq![word[i]]])
}

/// The waypoints of a word: its key centres with coinciding ones merged. A
/// word without letters has none, and neither has a word with a letter that
/// names no key.
pub open spec fn resolved(word: Seq<char>, keys: Map<Seq<char>, Point>) -> Option<Seq<Point>> {
    if word.len() > 0 && resolvable(word, keys) {
        Some(retained(centers(word, keys)))
    } else {
        None
    }
}

/// The resampled path of a word.
pub open spec fn word_path(
    word: Seq<char>,
    keys: Map<Seq<char>, Point>,
    policy: Resampling,
) -> Option<Seq<Point>> {
    match resolved(word, keys) {
        Some(w) => resampled(w, polyline_length(w), policy),
        None => None,
    }
}

/// The two ends that are looked up for a word are those of any other word
/// that starts and ends on the same letters: no letter in between counts, and
/// none of them need name a key.
pub proof fn lemma_ends_from_ends(a: Seq<char>, b: Seq<char>, keys: Map<Seq<char>, Point>)
    requires
        a.len() >= 2,
        b.len() >= 2,
        a.first() == b.first(),
        a.last() == b.last(),
    ensures
        first_center(a, keys) == first_center(b, keys),
        last_center(a, keys) == last_center(b, keys),
        first_center(a, keys) == center_of(keys, a.first()),
        last_center(a, keys) == center_of(keys, a.last()),
{
}

/// A word whose letters all name keys has no more waypoints than letters, and
/// as many exactly where no two letters in a row have coinciding keys.
pub proof fn lemma_resolved_count(word: Seq<char>, keys: Map<Seq<char>, Point>)
    requires
        word.len() > 0,
        resolvable(word, keys),
    ensures
        resolved(word, keys) is Some,
        1 <= resolved(word, keys)->0.len() <= word.len(),
        resolved(word, keys)->0.len() == word.len() <==> spaced(centers(word, keys)),
        resolved(word, keys)->0[0] == keys[seq![word[0]]],
{
    lemma_retained_len(centers(word, keys));
    lemma_retained_all(centers(word, keys));
}

/// The letters of a run share a key, so a run makes one waypoint however many
/// of its letters the normal form keeps: the normal form of a word has the
/// waypoints of the word folded to lower case.
pub proof fn lemma_runs_share_waypoints(w: Seq<char>, keys: Map<Seq<char>, Point>)
    ensures
        resolvable(normalize(w), keys) <==> resolvable(lowered(w), keys),
        retained(centers(normalize(w), keys)) == retained(centers(lowered(w), keys)),
        resolved(normalize(w), keys) == resolved(lowered(w), keys),
    decreases w.len(),
{
    if w.len() == 0 {
        assert(normalize(w) =~= lowered(w));
    } else {
        let front = w.drop_last();
        let c = w.last();
        let l = ascii_lower(c);
        assert(front.push(c) =~= w);
        lemma_runs_share_waypoints(front, keys);
        lemma_normalize_push(front, c);
        let short = normalize(front);
        let long = normalize(w);
        let plain = lowered(front);
        let folded = lowered(w);
        assert(folded =~= plain.push(l));
        assert(centers(folded, keys) =~= centers(plain, keys).push(keys[seq![l]]));
        assert(centers(folded, keys).drop_last() =~= centers(plain, keys));
        assert(resolvable(folded, keys) <==> resolvable(plain, keys) && keys.contains_key(
            seq![l],
        )) by {
            if resolvable(folded, keys) {
                assert(folded[folded.len() - 1] == l);
                assert forall|i: int| 0 <= i < plain.len() implies keys.contains_key(
                    seq![#[trigger] plain[i]],
                ) by {
                    assert(plain[i] == folded[i]);
                }
            }
            if resolvable(plain, keys) && keys.contains_key(seq![l]) {
                assert forall|i: int| 0 <= i < folded.len() implies keys.contains_key(
                    seq![#[trigger] folded[i]],
                ) by {
                    if i < plain.len() {
                        assert(folded[i] == plain[i]);
                    }
                }
            }
        }
        if front.len() > 0 && front.last() == c {
            assert(long == short);
            assert(plain.last() == l);
            assert(keys.contains_key(seq![plain[plain.len() - 1]]) <==> keys.contains_key(
                seq![l],
            ));
            lemma_retained_repeat(centers(folded, keys));
        } else {
            assert(long == short.push(l));
            assert(centers(long, keys) =~= centers(short, keys).push(keys[seq![l]]));
            assert(centers(long, keys).drop_last() =~= centers(short, keys));
            assert(resolvable(long, keys) <==> resolvable(short, keys) && keys.contains_key(
                seq![l],
            )) by {
                if resolvable(long, keys) {
                    assert(long[long.len() - 1] == l);
                    assert forall|i: int| 0 <= i < short.len() implies keys.contains_key(
                        seq![#[trigger] short[i]],
                    ) by {
                        assert(short[i] == long[i]);
                    }
                }
                if resolvable(short, keys) && keys.contains_key(seq![l]) {
                    assert forall|i: int| 0 <= i < long.len() implies keys.contains_key(
                        seq![#[trigger] long[i]],
                    ) by {
                        if i < short.len() {
                            assert(long[i] == short[i]);
                        }
                    }
                }
            }
        }
    }
}

/// Case does not count: two words that fold to the same letters have the
/// same waypoints, and so the same path under every policy, and the same first
/// key. Their last keys may differ, as a word of one letter has none: of `Aa`
/// the normal form keeps two letters, of `aa` one.
pub proof fn lemma_case_insensitive(
    a: Seq<char>,
    b: Seq<char>,
    keys: Map<Seq<char>, Point>,
    policy: Resampling,
)
    requires
        lowered(a) == lowered(b),
    ensures
        resolved(normalize(a), keys) == resolved(normalize(b), keys),
        word_path(normalize(a), keys, policy) == word_path(normalize(b), keys, policy),
        first_center(normalize(a), keys) == first_center(normalize(b), keys),
{
    lemma_runs_share_waypoints(a, keys);
    lemma_runs_share_waypoints(b, keys);
    lemma_normalize_ends(a);
    lemma_normalize_ends(b);
    if a.len() > 0 {
        assert(lowered(a)[0] == ascii_lower(a[0]));
        assert(lowered(b)[0] == ascii_lower(b[0]));
    }
}

/// A word in normal form, on a layout.
pub struct WordPath<'a> {
    word: Vec<char>,
    key_layout: &'a Layout,
}

impl<'a> WordPath<'a> {
    /// The word in normal form.
    pub closed spec fn word(&self) -> Seq<char> {
        self.word@
    }

    /// The layout's key centres by key name.
    pub closed spec fn keys(&self) -> Map<Seq<char>, Point> {
        self.key_layout@
    }

    /// Normalises `word` and sets it on `key_layout`.
    pub fn new(key_layout: &'a Layout, word: &str) -> (path: Self)
        ensures
            path.word() == normalize(word@),
            path.keys() == key_layout@,
    {
        WordPath { word: normalize_word(word), key_layout }
    }

    /// The key centres of the first and of the last letter. Only these two
    /// letters are looked up; the last one only in a word of two letters or
    /// more.
    pub fn get_first_last_points(&self) -> (ends: (Option<&Point>, Option<&Point>))
        ensures
            match ends.0 {
                Some(p) => first_center(self.word(), self.keys()) == Some(*p),
                None => first_center(self.word(), self.keys()) is None,
            },
            match ends.1 {
                Some(p) => last_center(self.word(), self.keys()) == Some(*p),
                None => last_center(self.word(), self.keys()) is None,
            },
    {
        let first: Option<&Point> = if self.word.len() > 0 {
            self.key_layout.center(self.word[0])
        } else {
            None
        };
        let last: Option<&Point> = if self.word.len() > 1 {
            self.key_layout.center(self.word[self.word.len() - 1])
        } else {
            None
        };
        (first, last)
    }

    /// The waypoints of the word, all or none: there are none for a word
    /// without letters, nor where any letter names no key.
    pub fn ideal_waypoints(&self) -> (route: Option<Waypoints>)
        ensures
            match route {
                Some(w) => w.wf() && resolved(self.word(), self.keys()) == Some(w@),
                None => resolved(self.word(), self.keys()) is None,
            },
            route is Some <==> self.word().len() > 0 && resolvable(self.word(), self.keys()),
            route matches Some(w) ==> w@.len() <= self.word().len() && (w@.len()
                == self.word().len() <==> spaced(centers(self.word(), self.keys()))),
    {
        let mut stops: Vec<Point> = Vec::new();
        let mut i: usize = 0;
        while i < self.word.len()
            invariant
                i <= self.word.len(),
                stops@ == centers(self.word@.take(i as int), self.key_layout@),
                resolvable(self.word@.take(i as int), self.key_layout@),
            decreases self.word.len() - i,
        {
            match self.key_layout.center(self.word[i]) {
                Some(center) => {
                    stops.push(*center);
                },
                None => {
                    assert(!self.key_layout@.contains_key(seq![self.word@[i as int]]));
                    return None;
                },
            }
            proof {
                let shorter = self.word@.take(i as int);
                let longer = self.word@.take(i + 1);
                assert forall|j: int| 0 <= j < longer.len() implies self.key_layout@.contains_key(
                    seq![#[trigger] longer[j]],
                ) by {
                    if j < i {
                        assert(longer[j] == shorter[j]);
                    }
                }
                assert(stops@ =~= centers(longer, self.key_layout@));
            }
            i = i + 1;
        }
        proof {
            assert(self.word@.take(self.word@.len() as int) =~= self.word@);
            if self.word@.len() > 0 {
                lemma_resolved_count(self.word@, self.key_layout@);
            }
        }
        Waypoints::through(&stops)
    }

    /// Resamples the polyline through `waypoints` with a point every
    /// `desired_point_density` grid units. There is no path without a waypoint
    /// or for a spacing that is not positive.
    pub fn ideal_path_interpolated(
        &self,
        waypoints: Vec<Point>,
        desired_point_density: i64,
    ) -> (path: Option<Vec<Point>>)
        ensures
            match path {
                Some(p) => density_path(waypoints@, desired_point_density as int) == Some(p@),
                None => density_path(waypoints@, desired_point_density as int) is None,
            },
            path is None <==> waypoints@.len() == 0 || desired_point_density <= 0,
    {
        at_density(&waypoints, desired_point_density)
    }

    /// The word's path, resampled as `policy` says.
    pub fn get_path_with(&self, policy: Resampling) -> (path: Option<Vec<Point>>)
        ensures
            match path {
                Some(p) => word_path(self.word(), self.keys(), policy) == Some(p@),
                None => word_path(self.word(), self.keys(), policy) is None,
            },
            path is Some <==> self.word().len() > 0 && resolvable(self.word(), self.keys())
                && match policy {
                Resampling::Density(density) => density > 0,
                Resampling::Count(total) => total >= retained(
                    centers(self.word(), self.keys()),
                ).len(),
            },
            path matches Some(p) ==> (policy matches Resampling::Count(total) ==> p@.len()
                == total),
            path matches Some(p) ==> p@[0] == self.keys()[seq![self.word()[0]]],
    {
        match self.ideal_waypoints() {
            Some(waypoints) => {
                proof {
                    lemma_resolved_count(self.word@, self.key_layout@);
                }
                resample(&waypoints, policy)
            },
            None => None,
        }
    }

    /// The word's path with a point every `desired_point_density` grid units.
    pub fn get_path(&self, desired_point_density: i64) -> (path: Option<Vec<Point>>)
        ensures
            match path {
                Some(p) => word_path(
                    self.word(),
                    self.keys(),
                    Resampling::Density(desired_point_density),
                ) == Some(p@),
                None => word_path(
                    self.word(),
                    self.keys(),
                    Resampling::Density(desired_point_density),
                ) is None,
            },
            path is Some <==> self.word().len() > 0 && resolvable(self.word(), self.keys())
                && desired_point_density > 0,
    {
        self.get_path_with(Resampling::Density(desired_point_density))
    }
}

} // verus!
