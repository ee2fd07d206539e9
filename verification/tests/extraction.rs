use wowlog::extract::{damage_dealt, healing_done};
use wowlog::{Event, EventType, Unit};

fn unit(id: u64, name: &str) -> Unit {
    Unit::new(id, name.to_string())
}

fn ev(typ: EventType, source: Option<Unit>, target: Option<Unit>, amount: Option<u64>) -> Event {
    Event::new(0, typ, source, target, amount)
}

#[test]
fn damage_totals_sum_matching_events() {
    let a = unit(1, "A");
    let b = unit(2, "B");
    let x = unit(0xF100000001, "X");
    let events = vec![
        ev(EventType::SpellDamage, Some(a.clone()), Some(x.clone()), Some(100)),
        ev(EventType::SwingDamage, Some(a.clone()), Some(x.clone()), Some(50)),
        ev(EventType::SpellHeal, Some(a.clone()), Some(b.clone()), Some(30)),
        ev(EventType::SpellDamage, Some(b.clone()), Some(x.clone()), Some(70)),
        ev(EventType::UnitDied, None, Some(x.clone()), None),
    ];
    assert_eq!(damage_dealt(&a, &events), 150);
    assert_eq!(damage_dealt(&b, &events), 70);
    assert_eq!(damage_dealt(&x, &events), 0);
    assert_eq!(healing_done(&a, &events), 30);
    assert_eq!(healing_done(&b, &events), 0);
}

#[test]
fn environmental_damage_counts_as_damage() {
    let a = unit(1, "A");
    let events = vec![ev(
        EventType::EnvironmentalDamage,
        Some(a.clone()),
        None,
        Some(40),
    )];
    assert_eq!(damage_dealt(&a, &events), 40);
    assert_eq!(healing_done(&a, &events), 0);
}

#[test]
fn extraction_is_additive() {
    let a = unit(1, "A");
    let x = unit(0xF100000001, "X");
    let part1 = vec![
        ev(EventType::SpellDamage, Some(a.clone()), Some(x.clone()), Some(10)),
        ev(EventType::SwingDamage, Some(a.clone()), Some(x.clone()), Some(20)),
    ];
    let part2 = vec![
        ev(EventType::SpellPeriodicDamage, Some(a.clone()), Some(x.clone()), Some(5)),
        ev(EventType::SpellCastSuccess, Some(a.clone()), None, None),
    ];
    let mut whole = part1.clone();
    whole.extend(part2.clone());
    assert_eq!(
        damage_dealt(&a, &whole),
        damage_dealt(&a, &part1) + damage_dealt(&a, &part2)
    );
    assert_eq!(damage_dealt(&a, &whole), 35);
}

#[test]
fn extraction_carries_the_largest_amount() {
    let a = unit(1, "A");
    let x = unit(0xF100000001, "X");
    let events = vec![ev(
        EventType::SpellDamage,
        Some(a.clone()),
        Some(x.clone()),
        Some(u64::MAX),
    )];
    assert_eq!(damage_dealt(&a, &events), u64::MAX);
}

#[test]
fn extraction_over_empty_stream_is_zero() {
    let a = unit(1, "A");
    let events: Vec<Event> = Vec::new();
    assert_eq!(damage_dealt(&a, &events), 0);
    assert_eq!(healing_done(&a, &events), 0);
}
