use wowlog::{Event, EventType, ParseErrorType, Unit};

#[test]
fn load_event() {
    Event::from_str("3/9 19:05:22.252  SPELL_CAST_SUCCESS,0x000000000014EABC,\"Draleofdeath\",0x512,0x000000000014EABC,\"Draleofdeath\",0x512,25899,\"Greater Blessing of Sanctuary\",0x2").expect("Unable to parse event");
}

#[test]
fn event_fields_decode() {
    let e = Event::from_str(
        "3/9 19:05:22.252  SPELL_DAMAGE,0x1234,\"Alice\",0x512,0xF130001234,\"Boar\",0x10a28,100,\"Spell\",0x1,4242",
    )
    .expect("event should decode");
    assert_eq!(e.typ(), EventType::SpellDamage);
    let src = e.source().expect("source should be present");
    assert_eq!(src.id(), 0x1234);
    assert_eq!(src.name().as_str(), "Alice");
    assert!(src.is_player());
    let tgt = e.target().expect("target should be present");
    assert_eq!(tgt.id(), 0xF130001234);
    assert!(!tgt.is_player());
    assert_eq!(e.amount(), Some(4242));
    assert!(e.is_hostile());
}

#[test]
fn event_without_amount_field() {
    let e = Event::from_str("3/9 19:05:22.252  UNIT_DIED,0x1,\"A\",0x0,0xF130000001,\"B\",0x0")
        .expect("event should decode");
    assert_eq!(e.typ(), EventType::UnitDied);
    assert_eq!(e.amount(), None);
    assert!(!e.is_hostile());
}

#[test]
fn event_type_names_decode() {
    assert_eq!(
        EventType::from_str("SWING_DAMAGE", 0).unwrap(),
        EventType::SwingDamage
    );
    assert_eq!(
        EventType::from_str("SPELL_PERIODIC_HEAL", 0).unwrap(),
        EventType::SpellPeriodicHeal
    );
    assert_eq!(
        EventType::from_str("ENVIRONMENTAL_DAMAGE", 0).unwrap(),
        EventType::EnvironmentalDamage
    );
    assert_eq!(EventType::from_str("UNIT_DIED", 0).unwrap(), EventType::UnitDied);
    assert_eq!(
        EventType::from_str("SPELL_ENERGIZE", 0).unwrap(),
        EventType::SpellEnergise
    );
}

#[test]
fn event_type_full_table_decodes() {
    assert_eq!(EventType::from_str("DAMAGE_SHIELD", 0).unwrap(), EventType::DamageShield);
    assert_eq!(EventType::from_str("DAMAGE_SHIELD_MISSED", 0).unwrap(), EventType::DamageShieldMissed);
    assert_eq!(EventType::from_str("ENCHANT_APPLIED", 0).unwrap(), EventType::EnchantApplied);
    assert_eq!(EventType::from_str("ENVIRONMENTAL_DAMAGE", 0).unwrap(), EventType::EnvironmentalDamage);
    assert_eq!(EventType::from_str("PARTY_KILL", 0).unwrap(), EventType::PartyKill);
    assert_eq!(EventType::from_str("RANGE_DAMAGE", 0).unwrap(), EventType::RangeDamage);
    assert_eq!(EventType::from_str("SPELL_AURA_APPLIED", 0).unwrap(), EventType::SpellAuraApplied);
    assert_eq!(EventType::from_str("SPELL_AURA_APPLIED_DOSE", 0).unwrap(), EventType::SpellAuraAppliedDose);
    assert_eq!(EventType::from_str("SPELL_AURA_REFRESH", 0).unwrap(), EventType::SpellAuraRefresh);
    assert_eq!(EventType::from_str("SPELL_AURA_REMOVED", 0).unwrap(), EventType::SpellAuraRemoved);
    assert_eq!(EventType::from_str("SPELL_CAST_FAILED", 0).unwrap(), EventType::SpellCastFailed);
    assert_eq!(EventType::from_str("SPELL_CAST_START", 0).unwrap(), EventType::SpellCastStart);
    assert_eq!(EventType::from_str("SPELL_CAST_SUCCESS", 0).unwrap(), EventType::SpellCastSuccess);
    assert_eq!(EventType::from_str("SPELL_CREATE", 0).unwrap(), EventType::SpellCreate);
    assert_eq!(EventType::from_str("SPELL_DAMAGE", 0).unwrap(), EventType::SpellDamage);
    assert_eq!(EventType::from_str("SPELL_DISPEL", 0).unwrap(), EventType::SpellDispel);
    assert_eq!(EventType::from_str("SPELL_ENERGIZE", 0).unwrap(), EventType::SpellEnergise);
    assert_eq!(EventType::from_str("SPELL_HEAL", 0).unwrap(), EventType::SpellHeal);
    assert_eq!(EventType::from_str("SPELL_INTERRUPT", 0).unwrap(), EventType::SpellInterrupt);
    assert_eq!(EventType::from_str("SPELL_MISSED", 0).unwrap(), EventType::SpellMissed);
    assert_eq!(EventType::from_str("SPELL_PERIODIC_DAMAGE", 0).unwrap(), EventType::SpellPeriodicDamage);
    assert_eq!(EventType::from_str("SPELL_PERIODIC_DRAIN", 0).unwrap(), EventType::SpellPeriodicDrain);
    assert_eq!(EventType::from_str("SPELL_PERIODIC_ENERGIZE", 0).unwrap(), EventType::SpellPeriodicEnergise);
    assert_eq!(EventType::from_str("SPELL_PERIODIC_HEAL", 0).unwrap(), EventType::SpellPeriodicHeal);
    assert_eq!(EventType::from_str("SPELL_PERIODIC_MISSED", 0).unwrap(), EventType::SpellPeriodicMissed);
    assert_eq!(EventType::from_str("SPELL_STOLEN", 0).unwrap(), EventType::SpellStolen);
    assert_eq!(EventType::from_str("SPELL_SUMMON", 0).unwrap(), EventType::SpellSummon);
    assert_eq!(EventType::from_str("SPELL_RESURRECT", 0).unwrap(), EventType::SpellResurrect);
    assert_eq!(EventType::from_str("SWING_DAMAGE", 0).unwrap(), EventType::SwingDamage);
    assert_eq!(EventType::from_str("SWING_MISSED", 0).unwrap(), EventType::SwingMissed);
    assert_eq!(EventType::from_str("UNIT_DIED", 0).unwrap(), EventType::UnitDied);
}

#[test]
fn event_time_is_epoch_milliseconds() {
    let e = Event::from_str("3/9 19:05:22.252  UNIT_DIED,0x1,\"A\",0x0,0xF130000001,\"B\",0x0")
        .expect("event should decode");
    // 2019-03-09 19:05:22.252, read as UTC.
    assert_eq!(e.time(), 1552158322252);
}

#[test]
fn unknown_event_type_is_reported() {
    let err = EventType::from_str("NO_SUCH_EVENT", 7).unwrap_err();
    assert_eq!(err.col(), 7);
    match err.typ() {
        ParseErrorType::UnknownEventType(s) => assert_eq!(s.as_str(), "NO_SUCH_EVENT"),
        other => panic!("wrong error kind: {:?}", other),
    }
}

#[test]
fn wrong_head_length_is_reported() {
    let err = Event::from_str("3/9 19:05:22.252 EXTRA SPELL_DAMAGE,0x1,\"a\",0x0,0x2,\"b\",0x0")
        .unwrap_err();
    assert!(matches!(err.typ(), ParseErrorType::WrongHeadLength));
    assert_eq!(err.col(), 3);
}

#[test]
fn wrong_time_format_is_reported() {
    let err = Event::from_str("xx/9 19:05:22.252 SPELL_DAMAGE,0x1,\"a\",0x0,0x2,\"b\",0x0")
        .unwrap_err();
    assert!(matches!(err.typ(), ParseErrorType::WrongTimeFormat));
    assert_eq!(err.col(), 0);
}

#[test]
fn too_few_fields_is_reported() {
    let err = Event::from_str("3/9 19:05:22.252 SPELL_DAMAGE,0x1,\"a\"").unwrap_err();
    assert!(matches!(err.typ(), ParseErrorType::InvalidArg));
}

#[test]
fn bad_amount_is_reported() {
    let err = Event::from_str(
        "3/9 19:05:22.252 SPELL_DAMAGE,0x1,\"a\",0x0,0x2,\"b\",0x0,1,\"s\",0x1,notanumber",
    )
    .unwrap_err();
    assert!(matches!(err.typ(), ParseErrorType::InvalidArg));
}

#[test]
fn hostility_of_kinds() {
    assert!(EventType::SwingDamage.is_hostile());
    assert!(EventType::SpellInterrupt.is_hostile());
    assert!(EventType::SpellStolen.is_hostile());
    assert!(!EventType::EnvironmentalDamage.is_hostile());
    assert!(!EventType::SpellHeal.is_hostile());
    assert!(!EventType::UnitDied.is_hostile());
}

#[test]
fn damaging_and_healing_kinds() {
    assert!(EventType::EnvironmentalDamage.damaging());
    assert!(EventType::SpellPeriodicDamage.damaging());
    assert!(!EventType::SpellHeal.damaging());
    assert!(EventType::SpellHeal.healing());
    assert!(EventType::SpellPeriodicHeal.healing());
    assert!(!EventType::SwingDamage.healing());
}

#[test]
fn unit_from_raw_decodes() {
    let u = Unit::from_raw("0x137e20", "\"Telta\"").expect("unit should decode");
    assert_eq!(u.id(), 0x137e20);
    assert_eq!(u.name().as_str(), "Telta");
    assert!(u.is_player());
}

#[test]
fn unit_from_raw_accepts_plus_sign() {
    let u = Unit::from_raw("0x+ff", "\"x\"").expect("unit should decode");
    assert_eq!(u.id(), 0xff);
}

#[test]
fn unit_from_raw_rejects_bad_fields() {
    assert!(Unit::from_raw("137e20", "\"Telta\"").is_none());
    assert!(Unit::from_raw("0x0", "\"Telta\"").is_none());
    assert!(Unit::from_raw("0x1", "nil").is_none());
    assert!(Unit::from_raw("0x", "\"a\"").is_none());
    assert!(Unit::from_raw("0xZZ", "\"a\"").is_none());
    assert!(Unit::from_raw("0x10000000000000000", "\"a\"").is_none());
}

#[test]
fn unit_identity_and_classification() {
    let a = Unit::new(7, "Bo".to_string());
    let b = Unit::new(7, "Bo".to_string());
    let c = Unit::new(8, "Bo".to_string());
    let d = Unit::new(7, "Po".to_string());
    assert!(a == b);
    assert!(a != c);
    assert!(a != d);
    assert!(a.is_player());
    assert!(Unit::new(0xFFFF_FFFF, "edge".to_string()).is_player());
    assert!(!Unit::new(0x1_0000_0000, "npc".to_string()).is_player());
}
