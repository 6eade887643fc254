//! Badge placement: where on an icon a badge sits.

use vstd::prelude::*;

use crate::chars::{ascii_lower_seq, to_ascii_lowercase};

verus! {

/// Where the badge sits on the icon.
///
/// Parses both the ImageMagick compass words (`NorthEast`) and the
/// abbreviations used for deck placement (`NE`), in any letter case.
#[derive(Debug, Clone, Copy, PartialEq, Eq, Structural)]
pub enum Gravity {
    NorthWest,
    North,
    NorthEast,
    West,
    Center,
    East,
    SouthWest,
    South,
    SouthEast,
}

/// The gravity that an already lower-cased name denotes, if any.
pub open spec fn gravity_of_lowered(t: Seq<char>) -> Option<Gravity> {
    if t == "northwest"@ || t == "nw"@ {
        Some(Gravity::NorthWest)
    } else if t == "north"@ || t == "n"@ {
        Some(Gravity::North)
    } else if t == "northeast"@ || t == "ne"@ {
        Some(Gravity::NorthEast)
    } else if t == "west"@ || t == "w"@ {
        Some(Gravity::West)
    } else if t == "center"@ || t == "centre"@ || t == "c"@ {
        Some(Gravity::Center)
    } else if t == "east"@ || t == "e"@ {
        Some(Gravity::East)
    } else if t == "southwest"@ || t == "sw"@ {
        Some(Gravity::SouthWest)
    } else if t == "south"@ || t == "s"@ {
        Some(Gravity::South)
    } else if t == "southeast"@ || t == "se"@ {
        Some(Gravity::SouthEast)
    } else {
        None
    }
}

/// The gravity a name denotes, ignoring ASCII letter case.
pub open spec fn gravity_named(s: Seq<char>) -> Option<Gravity> {
    gravity_of_lowered(ascii_lower_seq(s))
}

/// The message for a name that denotes no gravity; `lowered` is the name lower-cased.
pub open spec fn unrecognized_gravity_message(lowered: Seq<char>) -> Seq<char> {
    "unrecognized gravity '"@ + lowered
        + "': expected a compass direction such as NorthEast or NE"@
}

/// Whether `t` spells exactly `word`.
fn spells(t: &String, word: &str) -> (r: bool)
    ensures
        r == (t@ == word@),
{
    let w = String::from_str(word);
    *t == w
}

impl Gravity {
    /// Parses a compass word or abbreviation, in any letter case.
    pub fn from_name(s: &str) -> (r: Result<Gravity, String>)
        ensures
            r matches Ok(g) ==> gravity_named(s@) == Some(g),
            r matches Err(e) ==> gravity_named(s@) is None
                && e@ == unrecognized_gravity_message(ascii_lower_seq(s@)),
            r is Ok <==> gravity_named(s@) is Some,
    {
        let t = to_ascii_lowercase(s);
        if spells(&t, "northwest") || spells(&t, "nw") {
            Ok(Gravity::NorthWest)
        } else if spells(&t, "north") || spells(&t, "n") {
            Ok(Gravity::North)
        } else if spells(&t, "northeast") || spells(&t, "ne") {
            Ok(Gravity::NorthEast)
        } else if spells(&t, "west") || spells(&t, "w") {
            Ok(Gravity::West)
        } else if spells(&t, "center") || spells(&t, "centre") || spells(&t, "c") {
            Ok(Gravity::Center)
        } else if spells(&t, "east") || spells(&t, "e") {
            Ok(Gravity::East)
        } else if spells(&t, "southwest") || spells(&t, "sw") {
            Ok(Gravity::SouthWest)
        } else if spells(&t, "south") || spells(&t, "s") {
            Ok(Gravity::South)
        } else if spells(&t, "southeast") || spells(&t, "se") {
            Ok(Gravity::SouthEast)
        } else {
            let mut msg = String::from_str("unrecognized gravity '");
            msg.append(t.as_str());
            msg.append("': expected a compass direction such as NorthEast or NE");
            Err(msg)
        }
    }
}

/// Letter case does not matter: names that agree once lower-cased denote the
/// same gravity, or are both refused.
pub proof fn lemma_gravity_ignores_case(s1: Seq<char>, s2: Seq<char>)
    requires
        ascii_lower_seq(s1) == ascii_lower_seq(s2),
    ensures
        gravity_named(s1) == gravity_named(s2),
{
}

impl Default for Gravity {
    /// North-east, the corner a badge sits in unless told otherwise.
    fn default() -> (r: Gravity)
        ensures
            r == Gravity::NorthEast,
    {
        Gravity::NorthEast
    }
}

impl std::str::FromStr for Gravity {
    type Err = String;

    /// Parses a compass word or abbreviation, in any letter case, as `from_name` does.
    fn from_str(s: &str) -> (r: Result<Gravity, String>)
        ensures
            r matches Ok(g) ==> gravity_named(s@) == Some(g),
            r matches Err(e) ==> gravity_named(s@) is None
                && e@ == unrecognized_gravity_message(ascii_lower_seq(s@)),
            r is Ok <==> gravity_named(s@) is Some,
    {
        Gravity::from_name(s)
    }
}

} // verus!
