//! Events of a trace: one decoded record with a kind, an optional source
//! and target unit, an optional amount, and a timestamp.

use vstd::prelude::*;

use crate::text;
use crate::unit::{is_player_id, Unit, UnitV, unit_from_raw};

verus! {

/// The closed enumeration of combat action kinds a record can carry.
#[derive(Clone, Copy, Debug, PartialEq, Eq, Structural)]
pub enum EventType {
    DamageShield,
    DamageShieldMissed,
    EnchantApplied,
    EnvironmentalDamage,
    PartyKill,
    RangeDamage,
    SpellAuraApplied,
    SpellAuraAppliedDose,
    SpellAuraRefresh,
    SpellAuraRemoved,
    SpellCastFailed,
    SpellCastStart,
    SpellCastSuccess,
    SpellCreate,
    SpellDamage,
    SpellDispel,
    SpellEnergise,
    SpellHeal,
    SpellInterrupt,
    SpellMissed,
    SpellPeriodicDamage,
    SpellPeriodicDrain,
    SpellPeriodicEnergise,
    SpellPeriodicHeal,
    SpellPeriodicMissed,
    SpellStolen,
    SpellSummon,
    SpellResurrect,
    SwingDamage,
    SwingMissed,
    UnitDied,
}

/// Kinds that represent harmful action between opposing sides.
/// Environmental damage does not count: the environment has no intent.
pub open spec fn is_hostile_kind(t: EventType) -> bool {
    match t {
        EventType::DamageShield => true,
        EventType::DamageShieldMissed => true,
        EventType::RangeDamage => true,
        EventType::SpellDamage => true,
        EventType::SpellInterrupt => true,
        EventType::SpellMissed => true,
        EventType::SpellPeriodicDamage => true,
        EventType::SpellPeriodicMissed => true,
        EventType::SpellStolen => true,
        EventType::SwingDamage => true,
        EventType::SwingMissed => true,
        _ => false,
    }
}

/// Kinds that carry an amount of damage.
pub open spec fn is_damaging_kind(t: EventType) -> bool {
    match t {
        EventType::DamageShield => true,
        EventType::EnvironmentalDamage => true,
        EventType::RangeDamage => true,
        EventType::SpellDamage => true,
        EventType::SpellPeriodicDamage => true,
        EventType::SwingDamage => true,
        _ => false,
    }
}

/// Kinds that carry an amount of healing.
pub open spec fn is_healing_kind(t: EventType) -> bool {
    match t {
        EventType::SpellHeal => true,
        EventType::SpellPeriodicHeal => true,
        _ => false,
    }
}

/// A data anomaly: a hostile event whose two parties stand on the same
/// side, both players or both non-players. Non-fatal: segmentation
/// proceeds; callers may report it.
pub open spec fn same_side_anomaly(e: EventV) -> bool {
    is_hostile_kind(e.typ) && e.source is Some && e.target is Some && is_player_id(
        (e.source->0).id,
    ) == is_player_id((e.target->0).id)
}

/// The kind a record names, or `None` for an unknown name.
pub open spec fn event_type_of(s: Seq<char>) -> Option<EventType> {
    if s == "DAMAGE_SHIELD"@ {
        Some(EventType::DamageShield)
    } else if s == "DAMAGE_SHIELD_MISSED"@ {
        Some(EventType::DamageShieldMissed)
    } else if s == "ENCHANT_APPLIED"@ {
        Some(EventType::EnchantApplied)
    } else if s == "ENVIRONMENTAL_DAMAGE"@ {
        Some(EventType::EnvironmentalDamage)
    } else if s == "PARTY_KILL"@ {
        Some(EventType::PartyKill)
    } else if s == "RANGE_DAMAGE"@ {
        Some(EventType::RangeDamage)
    } else if s == "SPELL_AURA_APPLIED"@ {
        Some(EventType::SpellAuraApplied)
    } else if s == "SPELL_AURA_APPLIED_DOSE"@ {
        Some(EventType::SpellAuraAppliedDose)
    } else if s == "SPELL_AURA_REFRESH"@ {
        Some(EventType::SpellAuraRefresh)
    } else if s == "SPELL_AURA_REMOVED"@ {
        Some(EventType::SpellAuraRemoved)
    } else if s == "SPELL_CAST_FAILED"@ {
        Some(EventType::SpellCastFailed)
    } else if s == "SPELL_CAST_START"@ {
        Some(EventType::SpellCastStart)
    } else if s == "SPELL_CAST_SUCCESS"@ {
        Some(EventType::SpellCastSuccess)
    } else if s == "SPELL_CREATE"@ {
        Some(EventType::SpellCreate)
    } else if s == "SPELL_DAMAGE"@ {
        Some(EventType::SpellDamage)
    } else if s == "SPELL_DISPEL"@ {
        Some(EventType::SpellDispel)
    } else if s == "SPELL_ENERGIZE"@ {
        Some(EventType::SpellEnergise)
    } else if s == "SPELL_HEAL"@ {
        Some(EventType::SpellHeal)
    } else if s == "SPELL_INTERRUPT"@ {
        Some(EventType::SpellInterrupt)
    } else if s == "SPELL_MISSED"@ {
        Some(EventType::SpellMissed)
    } else if s == "SPELL_PERIODIC_DAMAGE"@ {
        Some(EventType::SpellPeriodicDamage)
    } else if s == "SPELL_PERIODIC_DRAIN"@ {
        Some(EventType::SpellPeriodicDrain)
    } else if s == "SPELL_PERIODIC_ENERGIZE"@ {
        Some(EventType::SpellPeriodicEnergise)
    } else if s == "SPELL_PERIODIC_HEAL"@ {
        Some(EventType::SpellPeriodicHeal)
    } else if s == "SPELL_PERIODIC_MISSED"@ {
        Some(EventType::SpellPeriodicMissed)
    } else if s == "SPELL_STOLEN"@ {
        Some(EventType::SpellStolen)
    } else if s == "SPELL_SUMMON"@ {
        Some(EventType::SpellSummon)
    } else if s == "SPELL_RESURRECT"@ {
        Some(EventType::SpellResurrect)
    } else if s == "SWING_DAMAGE"@ {
        Some(EventType::SwingDamage)
    } else if s == "SWING_MISSED"@ {
        Some(EventType::SwingMissed)
    } else if s == "UNIT_DIED"@ {
        Some(EventType::UnitDied)
    } else {
        None
    }
}

/// A decoded record. The timestamp counts milliseconds and is only
/// trustworthy relative to other events of the same trace, since the
/// logging client's clock is unknown.
#[derive(Debug)]
pub struct Event {
    time: i64,
    typ: EventType,
    source: Option<Unit>,
    target: Option<Unit>,
    amount: Option<u64>,
}

/// The mathematical value of an [`Event`].
#[verifier::ext_equal]
pub struct EventV {
    pub time: i64,
    pub typ: EventType,
    pub source: Option<UnitV>,
    pub target: Option<UnitV>,
    pub amount: Option<u64>,
}

impl View for Event {
    type V = EventV;

    closed spec fn view(&self) -> EventV {
        EventV {
            time: self.time,
            typ: self.typ,
            source: self.source.deep_view(),
            target: self.target.deep_view(),
            amount: self.amount,
        }
    }
}

impl DeepView for Event {
    type V = EventV;

    open spec fn deep_view(&self) -> EventV {
        self.view()
    }
}

/// What failed while decoding a record.
#[derive(Debug)]
pub enum ParseErrorType {
    WrongHeadLength,
    WrongTimeFormat,
    InvalidArg,
    UnknownEventType(String),
}

/// The mathematical value of a [`ParseErrorType`].
#[verifier::ext_equal]
pub enum ParseErrorTypeV {
    WrongHeadLength,
    WrongTimeFormat,
    InvalidArg,
    UnknownEventType(Seq<char>),
}

impl View for ParseErrorType {
    type V = ParseErrorTypeV;

    closed spec fn view(&self) -> ParseErrorTypeV {
        match self {
            ParseErrorType::WrongHeadLength => ParseErrorTypeV::WrongHeadLength,
            ParseErrorType::WrongTimeFormat => ParseErrorTypeV::WrongTimeFormat,
            ParseErrorType::InvalidArg => ParseErrorTypeV::InvalidArg,
            ParseErrorType::UnknownEventType(s) => ParseErrorTypeV::UnknownEventType(s@),
        }
    }
}

impl Clone for ParseErrorType {
    fn clone(&self) -> (r: Self)
        ensures
            r@ == self@,
    {
        match self {
            ParseErrorType::WrongHeadLength => ParseErrorType::WrongHeadLength,
            ParseErrorType::WrongTimeFormat => ParseErrorType::WrongTimeFormat,
            ParseErrorType::InvalidArg => ParseErrorType::InvalidArg,
            ParseErrorType::UnknownEventType(s) => ParseErrorType::UnknownEventType(s.clone()),
        }
    }
}

/// A decoding failure: its reason and the column it was noticed at.
#[derive(Debug)]
pub struct ParseError {
    typ: ParseErrorType,
    col: usize,
}

/// The mathematical value of a [`ParseError`].
#[verifier::ext_equal]
pub struct ParseErrorV {
    pub typ: ParseErrorTypeV,
    pub col: int,
}

impl View for ParseError {
    type V = ParseErrorV;

    closed spec fn view(&self) -> ParseErrorV {
        ParseErrorV { typ: self.typ@, col: self.col as int }
    }
}

impl Clone for ParseError {
    fn clone(&self) -> (r: Self)
        ensures
            r@ == self@,
    {
        ParseError { typ: self.typ.clone(), col: self.col }
    }
}

impl ParseError {
    pub fn new(typ: ParseErrorType, col: usize) -> (r: ParseError)
        ensures
            r@ == (ParseErrorV { typ: typ@, col: col as int }),
    {
        ParseError { typ, col }
    }

    pub fn typ(&self) -> (r: ParseErrorType)
        ensures
            r@ == self@.typ,
    {
        self.typ.clone()
    }

    pub fn col(&self) -> (r: usize)
        ensures
            r as int == self@.col,
    {
        self.col
    }
}

impl EventType {
    /// Decode the name of an action kind, or report the unknown name and
    /// the given column.
    pub fn from_str(s: &str, col: usize) -> (r: Result<EventType, ParseError>)
        ensures
            (match (r, event_type_of(s@)) {
                (Ok(t), Some(v)) => t == v,
                (Err(e), None) => e@ == (ParseErrorV {
                    typ: ParseErrorTypeV::UnknownEventType(s@),
                    col: col as int,
                }),
                _ => false,
            }),
    {
        if text::str_eq(s, "DAMAGE_SHIELD") {
            Ok(EventType::DamageShield)
        } else if text::str_eq(s, "DAMAGE_SHIELD_MISSED") {
            Ok(EventType::DamageShieldMissed)
        } else if text::str_eq(s, "ENCHANT_APPLIED") {
            Ok(EventType::EnchantApplied)
        } else if text::str_eq(s, "ENVIRONMENTAL_DAMAGE") {
            Ok(EventType::EnvironmentalDamage)
        } else if text::str_eq(s, "PARTY_KILL") {
            Ok(EventType::PartyKill)
        } else if text::str_eq(s, "RANGE_DAMAGE") {
            Ok(EventType::RangeDamage)
        } else if text::str_eq(s, "SPELL_AURA_APPLIED") {
            Ok(EventType::SpellAuraApplied)
        } else if text::str_eq(s, "SPELL_AURA_APPLIED_DOSE") {
            Ok(EventType::SpellAuraAppliedDose)
        } else if text::str_eq(s, "SPELL_AURA_REFRESH") {
            Ok(EventType::SpellAuraRefresh)
        } else if text::str_eq(s, "SPELL_AURA_REMOVED") {
            Ok(EventType::SpellAuraRemoved)
        } else if text::str_eq(s, "SPELL_CAST_FAILED") {
            Ok(EventType::SpellCastFailed)
        } else if text::str_eq(s, "SPELL_CAST_START") {
            Ok(EventType::SpellCastStart)
        } else if text::str_eq(s, "SPELL_CAST_SUCCESS") {
            Ok(EventType::SpellCastSuccess)
        } else if text::str_eq(s, "SPELL_CREATE") {
            Ok(EventType::SpellCreate)
        } else if text::str_eq(s, "SPELL_DAMAGE") {
            Ok(EventType::SpellDamage)
        } else if text::str_eq(s, "SPELL_DISPEL") {
            Ok(EventType::SpellDispel)
        } else if text::str_eq(s, "SPELL_ENERGIZE") {
            Ok(EventType::SpellEnergise)
        } else if text::str_eq(s, "SPELL_HEAL") {
            Ok(EventType::SpellHeal)
        } else if text::str_eq(s, "SPELL_INTERRUPT") {
            Ok(EventType::SpellInterrupt)
        } else if text::str_eq(s, "SPELL_MISSED") {
            Ok(EventType::SpellMissed)
        } else if text::str_eq(s, "SPELL_PERIODIC_DAMAGE") {
            Ok(EventType::SpellPeriodicDamage)
        } else if text::str_eq(s, "SPELL_PERIODIC_DRAIN") {
            Ok(EventType::SpellPeriodicDrain)
        } else if text::str_eq(s, "SPELL_PERIODIC_ENERGIZE") {
            Ok(EventType::SpellPeriodicEnergise)
        } else if text::str_eq(s, "SPELL_PERIODIC_HEAL") {
            Ok(EventType::SpellPeriodicHeal)
        } else if text::str_eq(s, "SPELL_PERIODIC_MISSED") {
            Ok(EventType::SpellPeriodicMissed)
        } else if text::str_eq(s, "SPELL_STOLEN") {
            Ok(EventType::SpellStolen)
        } else if text::str_eq(s, "SPELL_SUMMON") {
            Ok(EventType::SpellSummon)
        } else if text::str_eq(s, "SPELL_RESURRECT") {
            Ok(EventType::SpellResurrect)
        } else if text::str_eq(s, "SWING_DAMAGE") {
            Ok(EventType::SwingDamage)
        } else if text::str_eq(s, "SWING_MISSED") {
            Ok(EventType::SwingMissed)
        } else if text::str_eq(s, "UNIT_DIED") {
            Ok(EventType::UnitDied)
        } else {
            Err(ParseError::new(ParseErrorType::UnknownEventType(s.to_owned()), col))
        }
    }

    /// True when this kind represents harmful action between opposing
    /// sides, as [`is_hostile_kind`] describes.
    pub fn is_hostile(&self) -> (r: bool)
        ensures
            r == is_hostile_kind(*self),
    {
        match self {
            EventType::DamageShield
            | EventType::DamageShieldMissed
            | EventType::RangeDamage
            | EventType::SpellDamage
            | EventType::SpellInterrupt
            | EventType::SpellMissed
            | EventType::SpellPeriodicDamage
            | EventType::SpellPeriodicMissed
            | EventType::SpellStolen
            | EventType::SwingDamage
            | EventType::SwingMissed => true,
            _ => false,
        }
    }

    /// True when this kind carries an amount of damage.
    pub fn damaging(&self) -> (r: bool)
        ensures
            r == is_damaging_kind(*self),
    {
        match self {
            EventType::DamageShield
            | EventType::EnvironmentalDamage
            | EventType::RangeDamage
            | EventType::SpellDamage
            | EventType::SpellPeriodicDamage
            | EventType::SwingDamage => true,
            _ => false,
        }
    }

    /// True when this kind carries an amount of healing.
    pub fn healing(&self) -> (r: bool)
        ensures
            r == is_healing_kind(*self),
    {
        match self {
            EventType::SpellHeal | EventType::SpellPeriodicHeal => true,
            _ => false,
        }
    }
}

/// The timestamp a record head denotes, in milliseconds, or `None` when the
/// two fields do not form a valid month/day date and clock time. Named
/// here; the decoder below computes it.
pub uninterp spec fn time_parse(date: Seq<char>, clock: Seq<char>) -> Option<i64>;

/// Relies on chrono's `NaiveDateTime::parse_from_str`, with a fixed format
/// (`%m/%d %H:%M:%S%.3f` and a fixed year, as the log format omits both the
/// year and the time zone), and on `DateTime::timestamp_millis`: both are
/// pure, so the outcome depends on the two fields alone.
#[verifier::external_body]
fn parse_event_time(date: &str, clock: &str) -> (r: Option<i64>)
    ensures
        r == time_parse(date@, clock@),
{
    let joined = format!("{} {} 2019", date, clock);
    match chrono::NaiveDateTime::parse_from_str(&joined, "%m/%d %H:%M:%S%.3f %Y") {
        Ok(t) => Some(t.and_utc().timestamp_millis()),
        Err(_) => None,
    }
}

/// The event a record line denotes, or the first decoding failure found in
/// it: a head of other than three fields, an unreadable timestamp, an
/// unknown action kind, fewer than six comma-separated fields, or an
/// unreadable amount field.
pub open spec fn parse_event(s: Seq<char>) -> Result<EventV, ParseErrorV> {
    let parts = text::split_on(s, ',');
    let head = text::split_ws(parts[0]);
    if head.len() != 3 {
        Err(
            ParseErrorV {
                typ: ParseErrorTypeV::WrongHeadLength,
                col: if head.len() == 0 {
                    0
                } else {
                    head.len() - 1
                },
            },
        )
    } else if time_parse(head[0], head[1]) is None {
        Err(ParseErrorV { typ: ParseErrorTypeV::WrongTimeFormat, col: 0 })
    } else if event_type_of(head[2]) is None {
        Err(
            ParseErrorV {
                typ: ParseErrorTypeV::UnknownEventType(head[2]),
                col: head[0].len() + head[1].len() as int,
            },
        )
    } else if parts.len() < 6 {
        Err(ParseErrorV { typ: ParseErrorTypeV::InvalidArg, col: 0 })
    } else if parts.len() > 10 && text::parse_u64(parts[10], 10) is None {
        Err(ParseErrorV { typ: ParseErrorTypeV::InvalidArg, col: 0 })
    } else {
        Ok(
            EventV {
                time: time_parse(head[0], head[1])->0,
                typ: event_type_of(head[2])->0,
                source: unit_from_raw(parts[1], parts[2]),
                target: unit_from_raw(parts[4], parts[5]),
                amount: if parts.len() > 10 {
                    Some(text::parse_u64(parts[10], 10)->0)
                } else {
                    None
                },
            },
        )
    }
}

impl Event {
    /// Assemble an event from already decoded parts.
    pub fn new(
        time: i64,
        typ: EventType,
        source: Option<Unit>,
        target: Option<Unit>,
        amount: Option<u64>,
    ) -> (r: Event)
        ensures
            r@ == (EventV {
                time,
                typ,
                source: source.deep_view(),
                target: target.deep_view(),
                amount,
            }),
    {
        Event { time, typ, source, target, amount }
    }

    /// Decode one record line, as [`parse_event`] describes.
    pub fn from_str(s: &str) -> (r: Result<Event, ParseError>)
        ensures
            (match (r, parse_event(s@)) {
                (Ok(e), Ok(v)) => e@ == v,
                (Err(p), Err(q)) => p@ == q,
                _ => false,
            }),
    {
        let parts = text::split_str(s, ',');
        proof {
            assert(parts.deep_view().len() >= 1);
            assert(parts.deep_view()[0] == parts@[0]@);
        }
        let head = text::split_ws_str(parts[0]);
        if head.len() != 3 {
            let col: usize = if head.len() == 0 {
                0
            } else {
                head.len() - 1
            };
            return Err(ParseError::new(ParseErrorType::WrongHeadLength, col));
        }
        proof {
            assert(head.deep_view()[0] == head@[0]@);
            assert(head.deep_view()[1] == head@[1]@);
            assert(head.deep_view()[2] == head@[2]@);
        }
        let time = match parse_event_time(head[0], head[1]) {
            Some(t) => t,
            None => {
                return Err(ParseError::new(ParseErrorType::WrongTimeFormat, 0));
            },
        };
        let len0 = head[0].unicode_len();
        let len1 = head[1].unicode_len();
        let part0_len = parts[0].unicode_len();
        proof {
            text::lemma_split_ws_total(parts.deep_view()[0]);
            let h = head.deep_view();
            let h1 = h.skip(1);
            let h2 = h1.skip(1);
            assert(h2.skip(1) =~= Seq::<Seq<char>>::empty());
            assert(text::total_len(Seq::<Seq<char>>::empty()) == 0);
            assert(text::total_len(h2) == h2[0].len() + text::total_len(h2.skip(1)));
            assert(text::total_len(h1) == h1[0].len() + text::total_len(h2));
            assert(text::total_len(h) == h[0].len() + text::total_len(h1));
            assert(h1[0] == h[1]);
            assert(h2[0] == h[2]);
            assert(len0 + len1 <= part0_len);
        }
        let typ = match EventType::from_str(head[2], len0 + len1) {
            Ok(t) => t,
            Err(e) => {
                return Err(e);
            },
        };
        if parts.len() < 6 {
            return Err(ParseError::new(ParseErrorType::InvalidArg, 0));
        }
        proof {
            assert(parts.deep_view()[1] == parts@[1]@);
            assert(parts.deep_view()[2] == parts@[2]@);
            assert(parts.deep_view()[4] == parts@[4]@);
            assert(parts.deep_view()[5] == parts@[5]@);
        }
        let source = Unit::from_raw(parts[1], parts[2]);
        let target = Unit::from_raw(parts[4], parts[5]);
        let amount = if parts.len() > 10 {
            proof {
                assert(parts.deep_view()[10] == parts@[10]@);
            }
            match text::parse_u64_str(parts[10], 10) {
                Some(a) => Some(a),
                None => {
                    return Err(ParseError::new(ParseErrorType::InvalidArg, 0));
                },
            }
        } else {
            None
        };
        Ok(Event { time, typ, source, target, amount })
    }

    /// Milliseconds of the record's timestamp.
    pub fn time(&self) -> (r: i64)
        ensures
            r == self@.time,
    {
        self.time
    }

    pub fn typ(&self) -> (r: EventType)
        ensures
            r == self@.typ,
    {
        self.typ
    }

    /// True when the event's kind represents harmful action between
    /// opposing sides.
    pub fn is_hostile(&self) -> (r: bool)
        ensures
            r == is_hostile_kind(self@.typ),
    {
        self.typ.is_hostile()
    }

    /// True when this event carries the same-side anomaly that
    /// [`same_side_anomaly`] describes.
    pub fn has_same_side_anomaly(&self) -> (r: bool)
        ensures
            r == same_side_anomaly(self@),
    {
        if !self.typ.is_hostile() {
            return false;
        }
        match (&self.source, &self.target) {
            (Some(s), Some(t)) => s.is_player() == t.is_player(),
            _ => false,
        }
    }

    pub fn source(&self) -> (r: Option<Unit>)
        ensures
            r.deep_view() == self@.source,
    {
        match &self.source {
            Some(u) => Some(u.clone()),
            None => None,
        }
    }

    pub fn target(&self) -> (r: Option<Unit>)
        ensures
            r.deep_view() == self@.target,
    {
        match &self.target {
            Some(u) => Some(u.clone()),
            None => None,
        }
    }

    pub fn amount(&self) -> (r: Option<u64>)
        ensures
            r == self@.amount,
    {
        self.amount
    }
}

impl Clone for Event {
    fn clone(&self) -> (r: Self)
        ensures
            r@ == self@,
    {
        Event {
            time: self.time,
            typ: self.typ,
            source: match &self.source {
                Some(u) => Some(u.clone()),
                None => None,
            },
            target: match &self.target {
                Some(u) => Some(u.clone()),
                None => None,
            },
            amount: self.amount,
        }
    }
}

} // verus!
