//! Normalising a typed word: runs of one character collapse, then ASCII
//! capitals are folded to lower case.

use vstd::prelude::*;

verus! {

/// The lower-case form of an ASCII capital; every other character unchanged.
pub open spec fn ascii_lower(c: char) -> char {
    if 'A' <= c && c <= 'Z' {
        ((c as u8) + 32) as char
    } else {
        c
    }
}

/// `s` with every ASCII capital folded to lower case.
pub open spec fn lowered(s: Seq<char>) -> Seq<char> {
    Seq::new(s.len(), |i: int| ascii_lower(s[i]))
}

/// `s` with each run of one repeated character cut down to its first.
pub open spec fn dedup(s: Seq<char>) -> Seq<char>
    decreases s.len(),
{
    if s.len() <= 1 {
        s
    } else if s[s.len() - 2] == s[s.len() - 1] {
        dedup(s.drop_last())
    } else {
        dedup(s.drop_last()).push(s[s.len() - 1])
    }
}

/// The normal form of a word: runs collapsed on the characters as typed, then
/// folded to lower case. A change of case alone ends a run, so `Aa` keeps both
/// letters.
pub open spec fn normalize(s: Seq<char>) -> Seq<char> {
    lowered(dedup(s))
}

/// No character is followed by itself.
pub open spec fn no_repeats(s: Seq<char>) -> bool {
    forall|i: int| 0 <= i < s.len() - 1 ==> #[trigger] s[i] != s[i + 1]
}

/// No character is an ASCII capital.
pub open spec fn is_lower(s: Seq<char>) -> bool {
    forall|i: int| 0 <= i < s.len() ==> ascii_lower(#[trigger] s[i]) == s[i]
}

/// Folding a folded character changes nothing.
pub proof fn lemma_ascii_lower_twice(c: char)
    ensures
        ascii_lower(ascii_lower(c)) == ascii_lower(c),
{
}

/// Folding leaves no capital, and changes nothing where there is none.
pub proof fn lemma_lowered(s: Seq<char>)
    ensures
        is_lower(lowered(s)),
        is_lower(s) ==> lowered(s) == s,
        lowered(lowered(s)) == lowered(s),
{
    assert forall|i: int| 0 <= i < s.len() implies ascii_lower(#[trigger] lowered(s)[i]) == lowered(
        s,
    )[i] by {
        lemma_ascii_lower_twice(s[i]);
    }
    if is_lower(s) {
        assert(lowered(s) =~= s);
    }
    assert(lowered(lowered(s)) =~= lowered(s));
}

/// Collapsing runs keeps the ends of a word and takes no character from
/// elsewhere.
pub proof fn lemma_dedup_ends(s: Seq<char>)
    ensures
        dedup(s).len() <= s.len(),
        s.len() > 0 ==> dedup(s).len() > 0 && dedup(s)[0] == s[0] && dedup(s).last() == s.last(),
        is_lower(s) ==> is_lower(dedup(s)),
    decreases s.len(),
{
    if s.len() > 1 {
        lemma_dedup_ends(s.drop_last());
        if is_lower(s) {
            assert forall|i: int| 0 <= i < s.len() - 1 implies ascii_lower(
                #[trigger] s.drop_last()[i],
            ) == s.drop_last()[i] by {
                assert(ascii_lower(s[i]) == s[i]);
            }
            assert(ascii_lower(s[s.len() - 1]) == s[s.len() - 1]);
        }
    }
}

/// A normal form starts and ends on the folded first and last characters of
/// the word, and is empty only for the empty word.
pub proof fn lemma_normalize_ends(w: Seq<char>)
    ensures
        normalize(w).len() <= w.len(),
        w.len() > 0 ==> normalize(w).len() > 0 && normalize(w).first() == ascii_lower(w.first())
            && normalize(w).last() == ascii_lower(w.last()),
{
    lemma_dedup_ends(w);
}

/// Collapsing runs leaves none, and changes nothing exactly where there is
/// none.
pub proof fn lemma_dedup_no_repeats(s: Seq<char>)
    ensures
        no_repeats(dedup(s)),
        no_repeats(s) <==> dedup(s) == s,
        dedup(dedup(s)) == dedup(s),
    decreases s.len(),
{
    if s.len() > 1 {
        let front = s.drop_last();
        lemma_dedup_no_repeats(front);
        lemma_dedup_ends(front);
        let d = dedup(s);
        assert forall|i: int| 0 <= i < d.len() - 1 implies #[trigger] d[i] != d[i + 1] by {
            if i < dedup(front).len() - 1 {
                assert(dedup(front)[i] != dedup(front)[i + 1]);
            }
        }
        if no_repeats(s) {
            assert forall|i: int| 0 <= i < front.len() - 1 implies #[trigger] front[i] != front[i
                + 1] by {
                assert(s[i] != s[i + 1]);
            }
            assert(s[s.len() - 2] != s[s.len() - 2 + 1]);
            assert(d =~= s);
        }
        if d == s {
            assert(no_repeats(s));
        }
    }
    lemma_dedup_fixed(dedup(s));
}

/// Collapsing the runs of a word that has none changes nothing.
proof fn lemma_dedup_fixed(s: Seq<char>)
    requires
        no_repeats(s),
    ensures
        dedup(s) == s,
    decreases s.len(),
{
    if s.len() > 1 {
        let front = s.drop_last();
        assert forall|i: int| 0 <= i < front.len() - 1 implies #[trigger] front[i] != front[i
            + 1] by {
            assert(s[i] != s[i + 1]);
        }
        lemma_dedup_fixed(front);
        assert(s[s.len() - 2] != s[s.len() - 2 + 1]);
        assert(dedup(s) =~= s);
    }
}

/// Normalising a normal form collapses the runs that folding may have made,
/// and does no more: a second pass changes nothing exactly where the first has
/// left no character followed by itself.
pub proof fn lemma_normalize_twice(w: Seq<char>)
    ensures
        normalize(normalize(w)) == dedup(normalize(w)),
        normalize(normalize(w)) == normalize(w) <==> no_repeats(normalize(w)),
{
    let once = normalize(w);
    lemma_lowered(dedup(w));
    lemma_dedup_ends(once);
    lemma_lowered(dedup(once));
    lemma_dedup_no_repeats(once);
}

/// No character is followed by another that folds to the same: the word has
/// no letter next to its own other case.
pub open spec fn no_case_repeats(w: Seq<char>) -> bool {
    forall|i: int|
        0 <= i < w.len() - 1 && ascii_lower(#[trigger] w[i]) == ascii_lower(w[i + 1]) ==> w[i]
            == w[i + 1]
}

/// Folding makes a run in the normal form exactly where the word has a letter
/// next to its own other case.
pub proof fn lemma_normal_form_repeats(w: Seq<char>)
    ensures
        no_repeats(normalize(w)) <==> no_case_repeats(w),
    decreases w.len(),
{
    if w.len() > 1 {
        let front = w.drop_last();
        let b = w[w.len() - 2];
        let c = w[w.len() - 1];
        lemma_normal_form_repeats(front);
        lemma_dedup_ends(front);
        lemma_normalize_push(front, c);
        assert(front.push(c) =~= w);
        let short = normalize(front);
        let long = normalize(w);
        if no_case_repeats(w) {
            assert forall|i: int|
                0 <= i < front.len() - 1 && ascii_lower(#[trigger] front[i]) == ascii_lower(
                    front[i + 1],
                ) implies front[i] == front[i + 1] by {
                assert(ascii_lower(w[i]) == ascii_lower(w[i + 1]));
            }
            if b != c {
                assert(ascii_lower(w[w.len() - 2]) != ascii_lower(w[w.len() - 2 + 1]));
                assert(short.last() == ascii_lower(b));
                assert forall|i: int| 0 <= i < long.len() - 1 implies #[trigger] long[i] != long[i
                    + 1] by {
                    if i < short.len() - 1 {
                        assert(short[i] != short[i + 1]);
                    }
                }
            }
        }
        if no_repeats(long) {
            if b != c {
                assert(short.last() == ascii_lower(b));
                assert(long[short.len() - 1] != long[short.len() - 1 + 1]);
                assert forall|i: int| 0 <= i < short.len() - 1 implies #[trigger] short[i]
                    != short[i + 1] by {
                    assert(long[i] != long[i + 1]);
                }
            }
            assert(no_case_repeats(front));
            assert forall|i: int|
                0 <= i < w.len() - 1 && ascii_lower(#[trigger] w[i]) == ascii_lower(
                    w[i + 1],
                ) implies w[i] == w[i + 1] by {
                if i < front.len() - 1 {
                    assert(ascii_lower(front[i]) == ascii_lower(front[i + 1]));
                }
            }
        }
    }
}

/// Normalising is stable: a second pass gives the same word, for every word
/// that has no letter next to its own other case.
pub proof fn lemma_normalize_idempotent(w: Seq<char>)
    requires
        no_case_repeats(w),
    ensures
        normalize(normalize(w)) == normalize(w),
{
    lemma_normal_form_repeats(w);
    lemma_normalize_twice(w);
}

/// Folds an ASCII capital to lower case.
pub fn to_ascii_lower(c: char) -> (l: char)
    ensures
        l == ascii_lower(c),
{
    if 'A' <= c && c <= 'Z' {
        ((c as u8) + 32) as char
    } else {
        c
    }
}

/// What one more typed character does to the normal form of a word.
pub proof fn lemma_normalize_push(s: Seq<char>, c: char)
    ensures
        normalize(s.push(c)) == if s.len() > 0 && s.last() == c {
            normalize(s)
        } else {
            normalize(s).push(ascii_lower(c))
        },
{
    let t = s.push(c);
    assert(t.drop_last() =~= s);
    if s.len() == 0 {
        assert(dedup(s) =~= s);
        assert(normalize(t) =~= normalize(s).push(ascii_lower(c)));
    } else if s.last() == c {
        assert(dedup(t) == dedup(s));
    } else {
        assert(dedup(t) == dedup(s).push(c));
        assert(normalize(t) =~= normalize(s).push(ascii_lower(c)));
    }
}

/// Normalises a typed word.
pub fn normalize_word(word: &str) -> (letters: Vec<char>)
    ensures
        letters@ == normalize(word@),
{
    let mut letters: Vec<char> = Vec::new();
    let mut previous: Option<char> = None;
    let ghost mut seen: Seq<char> = Seq::empty();
    assert(normalize(seen) =~= Seq::<char>::empty());
    for c in it: word.chars()
        invariant
            it.seq() == word@,
            seen == word@.take(it.index()),
            letters@ == normalize(seen),
            previous == (if seen.len() == 0 {
                None
            } else {
                Some(seen.last())
            }),
    {
        proof {
            lemma_normalize_push(seen, c);
            assert(word@.take(it.index() + 1) =~= seen.push(c));
            seen = seen.push(c);
        }
        if previous != Some(c) {
            letters.push(to_ascii_lower(c));
        }
        previous = Some(c);
    }
    assert(word@.take(word@.len() as int) =~= word@);
    letters
}

} // verus!
