//! The colour marking that a day of the calendar can carry.
use vstd::prelude::*;
use vstd::string::*;

use crate::text::str_equals;

verus! {

/// A day's marking; right clicks cycle through them.
#[derive(Clone, Copy, PartialEq, Eq, Structural, Debug)]
pub enum MarkingType {
    Unmarked,
    One,
    Two,
}

/// The name under which a marking is stored.
pub open spec fn marking_name(m: MarkingType) -> Seq<char> {
    match m {
        MarkingType::Unmarked => seq!['N', 'o', 'n', 'e'],
        MarkingType::One => seq!['O', 'n', 'e'],
        MarkingType::Two => seq!['T', 'w', 'o'],
    }
}

/// The marking a stored name stands for; the empty name means no marking.
pub open spec fn parse_marking_spec(s: Seq<char>) -> Option<MarkingType> {
    if s == seq!['O', 'n', 'e'] {
        Some(MarkingType::One)
    } else if s == seq!['T', 'w', 'o'] {
        Some(MarkingType::Two)
    } else if s == seq!['N', 'o', 'n', 'e'] || s.len() == 0 {
        Some(MarkingType::Unmarked)
    } else {
        None
    }
}

/// The marking after one more click.
pub open spec fn next_marking(m: MarkingType) -> MarkingType {
    match m {
        MarkingType::Unmarked => MarkingType::One,
        MarkingType::One => MarkingType::Two,
        MarkingType::Two => MarkingType::Unmarked,
    }
}

impl Default for MarkingType {
    fn default() -> (m: Self)
        ensures
            m == MarkingType::Unmarked,
    {
        MarkingType::Unmarked
    }
}

impl MarkingType {
    /// Reads a stored marking name (`One`, `Two`, `None` or empty); no other
    /// text names a marking.
    pub fn parse(string: &str) -> (m: MarkingType)
        requires
            parse_marking_spec(string@) is Some,
        ensures
            m == parse_marking_spec(string@)->0,
    {
        MarkingType::try_parse(string).unwrap()
    }

    /// The marking that `string` names as `parse` reads it, or `None` when it
    /// names none.
    pub fn try_parse(string: &str) -> (m: Option<MarkingType>)
        ensures
            m == parse_marking_spec(string@),
    {
        proof {
            reveal_strlit("One");
            reveal_strlit("Two");
            reveal_strlit("None");
            assert("One"@ =~= seq!['O', 'n', 'e']);
            assert("Two"@ =~= seq!['T', 'w', 'o']);
            assert("None"@ =~= seq!['N', 'o', 'n', 'e']);
        }
        if str_equals(string, "One") {
            Some(MarkingType::One)
        } else if str_equals(string, "Two") {
            Some(MarkingType::Two)
        } else if str_equals(string, "None") || string.unicode_len() == 0 {
            Some(MarkingType::Unmarked)
        } else {
            None
        }
    }

    /// The name under which the marking is stored.
    pub fn to_string(&self) -> (s: String)
        ensures
            s@ == marking_name(*self),
    {
        proof {
            reveal_strlit("One");
            reveal_strlit("Two");
            reveal_strlit("None");
            assert("One"@ =~= seq!['O', 'n', 'e']);
            assert("Two"@ =~= seq!['T', 'w', 'o']);
            assert("None"@ =~= seq!['N', 'o', 'n', 'e']);
        }
        match self {
            MarkingType::One => String::from_str("One"),
            MarkingType::Two => String::from_str("Two"),
            MarkingType::Unmarked => String::from_str("None"),
        }
    }

    /// Moves to the next marking: none, one, two, and back to none.
    pub fn next(&mut self)
        ensures
            *final(self) == next_marking(*old(self)),
    {
        match self {
            MarkingType::Unmarked => *self = MarkingType::One,
            MarkingType::One => *self = MarkingType::Two,
            MarkingType::Two => *self = MarkingType::Unmarked,
        }
    }

    /// The style class that shows the marking, if any.
    pub fn css_class(&self) -> (class: Option<String>)
        ensures
            match *self {
                MarkingType::Unmarked => class is None,
                MarkingType::One => class matches Some(c) && c@ == seq![
                    'm', 'a', 'r', 'k', 'i', 'n', 'g', '-', 'c', 'o', 'l', 'o', 'r', '1',
                ],
                MarkingType::Two => class matches Some(c) && c@ == seq![
                    'm', 'a', 'r', 'k', 'i', 'n', 'g', '-', 'c', 'o', 'l', 'o', 'r', '2',
                ],
            },
    {
        proof {
            reveal_strlit("marking-color1");
            reveal_strlit("marking-color2");
        }
        match self {
            MarkingType::Unmarked => None,
            MarkingType::One => Some(String::from_str("marking-color1")),
            MarkingType::Two => Some(String::from_str("marking-color2")),
        }
    }
}

/// Reading back a stored marking name gives the marking.
pub proof fn lemma_marking_roundtrip(m: MarkingType)
    ensures
        parse_marking_spec(marking_name(m)) == Some(m),
{
    assert(seq!['N', 'o', 'n', 'e'] != seq!['O', 'n', 'e']);
    assert(seq!['N', 'o', 'n', 'e'] != seq!['T', 'w', 'o']);
    assert(seq!['T', 'w', 'o'] != seq!['O', 'n', 'e']) by {
        assert(seq!['T', 'w', 'o'][0] != seq!['O', 'n', 'e'][0]);
    }
}

/// Three clicks bring a marking back to where it was.
pub proof fn lemma_marking_cycle(m: MarkingType)
    ensures
        next_marking(next_marking(next_marking(m))) == m,
        next_marking(m) != m,
{
}

} // verus!
