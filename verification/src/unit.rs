//! Actors of a trace: a unit is identified by a numeric id and a display
//! name, and is classified as a player or a non-player by its id range.

use vstd::prelude::*;

use crate::text;

verus! {

/// Ids at or below this bound denote players; higher ids denote non-player
/// creatures. A documented heuristic of the log format.
pub const PLAYER_ID_MAX: u64 = 0xFFFF_FFFF;

/// A participant of the trace: an immutable identity value.
#[derive(Debug)]
pub struct Unit {
    id: u64,
    name: String,
}

/// The mathematical value of a [`Unit`]: its id and the characters of its
/// name.
#[verifier::ext_equal]
pub struct UnitV {
    pub id: u64,
    pub name: Seq<char>,
}

/// True when the id falls in the range reserved for players.
pub open spec fn is_player_id(id: u64) -> bool {
    id <= PLAYER_ID_MAX
}

impl View for Unit {
    type V = UnitV;

    closed spec fn view(&self) -> UnitV {
        UnitV { id: self.id, name: self.name@ }
    }
}

impl DeepView for Unit {
    type V = UnitV;

    open spec fn deep_view(&self) -> UnitV {
        self.view()
    }
}

/// The unit a pair of raw id and name fields denotes, or `None` when the
/// fields do not point at one: the id must be `0x` followed by a
/// hexadecimal number, the number must not be zero, and the name must not
/// be the placeholder `nil`. The name keeps its characters without the
/// surrounding quotation marks.
pub open spec fn unit_from_raw(id: Seq<char>, name: Seq<char>) -> Option<UnitV> {
    if !(id.len() >= 2 && id[0] == '0' && id[1] == 'x') {
        None
    } else {
        match text::parse_u64(id.skip(2), 16) {
            None => None,
            Some(v) => if v == 0 || name == "nil"@ {
                None
            } else {
                Some(UnitV { id: v, name: text::trim_matches(name, '"') })
            },
        }
    }
}

impl Unit {
    /// Create a new Unit.
    pub fn new(id: u64, name: String) -> (r: Unit)
        ensures
            r@ == (UnitV { id, name: name@ }),
    {
        Unit { id, name }
    }

    /// Check whether this Unit represents a player rather than a non-player
    /// creature.
    pub fn is_player(&self) -> (r: bool)
        ensures
            r == is_player_id(self@.id),
    {
        self.id <= PLAYER_ID_MAX
    }

    /// Decode the raw id and name fields of a record into a Unit, or `None`
    /// when they do not point at one, as [`unit_from_raw`] describes.
    pub fn from_raw(id: &str, name: &str) -> (r: Option<Unit>)
        ensures
            r.deep_view() == unit_from_raw(id@, name@),
    {
        let n = id.unicode_len();
        if !(n >= 2 && id.get_char(0) == '0' && id.get_char(1) == 'x') {
            return None;
        }
        let digits = id.substring_char(2, n);
        proof {
            assert(digits@ =~= id@.skip(2));
        }
        match text::parse_u64_str(digits, 16) {
            None => None,
            Some(v) => {
                if v == 0 || text::str_eq(name, "nil") {
                    None
                } else {
                    let trimmed = text::trim_matches_str(name, '"');
                    Some(Unit { id: v, name: trimmed.to_owned() })
                }
            },
        }
    }

    pub fn name(&self) -> (r: &String)
        ensures
            r@ == self@.name,
    {
        &self.name
    }

    pub fn id(&self) -> (r: u64)
        ensures
            r == self@.id,
    {
        self.id
    }
}

impl Clone for Unit {
    fn clone(&self) -> (r: Self)
        ensures
            r == *self,
    {
        Unit { id: self.id, name: self.name.clone() }
    }
}

impl PartialEq for Unit {
    fn eq(&self, other: &Self) -> (r: bool) {
        self.id == other.id && self.name == other.name
    }
}

impl vstd::std_specs::cmp::PartialEqSpecImpl for Unit {
    open spec fn obeys_eq_spec() -> bool {
        true
    }

    open spec fn eq_spec(&self, other: &Self) -> bool {
        self@ == other@
    }
}

} // verus!
