//! The key layout: which key, by its name, has its centre where.

use crate::geometry::Point;
use vstd::hash_map::StringHashMap;
use vstd::prelude::*;
use vstd::string::StringExecFns;

verus! {

/// Key centres by key name. Names are case-sensitive; a letter key is named by
/// its letter, other keys by a longer token.
pub struct Layout {
    centers: StringHashMap<Point>,
}

impl View for Layout {
    type V = Map<Seq<char>, Point>;

    closed spec fn view(&self) -> Map<Seq<char>, Point> {
        self.centers@
    }
}

/// The centre that `keys` gives the key named by the one character `letter`.
pub open spec fn center_of(keys: Map<Seq<char>, Point>, letter: char) -> Option<Point> {
    if keys.contains_key(seq![letter]) {
        Some(keys[seq![letter]])
    } else {
        None
    }
}

/// The name of a letter's key, made by `char::to_string` of std: a string of
/// that one character. Verus takes this on trust.
#[verifier::external_body]
fn letter_key(letter: char) -> (key: String)
    ensures
        key@ == seq![letter],
{
    letter.to_string()
}

impl Layout {
    /// A layout without keys.
    pub fn new() -> (layout: Self)
        ensures
            layout@ == Map::<Seq<char>, Point>::empty(),
    {
        Layout { centers: StringHashMap::new() }
    }

    /// Puts the key `name` at `center`; a key of that name that was there
    /// before is moved.
    pub fn insert(&mut self, name: &str, center: Point)
        ensures
            final(self)@ == old(self)@.insert(name@, center),
    {
        self.centers.insert(String::from_str(name), center);
    }

    /// Puts the key named by the one character `letter` at `center`.
    pub fn insert_letter(&mut self, letter: char, center: Point)
        ensures
            final(self)@ == old(self)@.insert(seq![letter], center),
    {
        self.centers.insert(letter_key(letter), center);
    }

    /// The centre of the key `name`, if the layout has such a key.
    pub fn get(&self, name: &str) -> (center: Option<&Point>)
        ensures
            match center {
                Some(p) => self@.contains_key(name@) && *p == self@[name@],
                None => !self@.contains_key(name@),
            },
    {
        self.centers.get(name)
    }

    /// The centre of the key named by the one character `letter`.
    pub fn center(&self, letter: char) -> (center: Option<&Point>)
        ensures
            match center {
                Some(p) => center_of(self@, letter) == Some(*p),
                None => center_of(self@, letter) is None,
            },
    {
        let key: String = letter_key(letter);
        self.centers.get(key.as_str())
    }

    /// Number of keys.
    pub fn len(&self) -> (n: usize)
        ensures
            n == self@.len(),
    {
        self.centers.len()
    }
}

} // verus!
