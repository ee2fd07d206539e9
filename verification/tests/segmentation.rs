use wowlog::encounter::merge_windows;
use wowlog::{Encounter, Event, EventType, Unit};

fn unit(id: u64, name: &str) -> Unit {
    Unit::new(id, name.to_string())
}

fn ev(typ: EventType, source: Option<Unit>, target: Option<Unit>, amount: Option<u64>) -> Event {
    Event::new(0, typ, source, target, amount)
}

#[test]
fn empty_trace_has_no_encounters() {
    let encounters = Encounter::all_encounters(Vec::new());
    assert_eq!(encounters.len(), 0);
}

#[test]
fn no_hostile_events_no_encounters() {
    let p = unit(1, "P");
    let events = vec![
        ev(EventType::SpellCastSuccess, Some(p.clone()), None, None),
        ev(EventType::SpellHeal, Some(p.clone()), Some(p.clone()), Some(10)),
    ];
    assert_eq!(Encounter::all_encounters(events).len(), 0);
}

#[test]
fn single_engagement_single_encounter() {
    let p = unit(1, "Player");
    let n = unit(0xF130000001, "Boar");
    let events = vec![
        ev(EventType::SpellCastStart, Some(p.clone()), None, None),
        ev(EventType::SwingDamage, Some(p.clone()), Some(n.clone()), Some(5)),
        ev(EventType::SwingDamage, Some(n.clone()), Some(p.clone()), Some(3)),
        ev(EventType::SpellCastSuccess, Some(p.clone()), None, None),
    ];
    let encounters = Encounter::all_encounters(events);
    assert_eq!(encounters.len(), 1);
    let enc = &encounters[0];
    assert_eq!(enc.events().len(), 2);
    assert_eq!(enc.events()[0].amount(), Some(5));
    assert_eq!(enc.events()[1].amount(), Some(3));
    assert_eq!(enc.involved().len(), 2);
}

#[test]
fn separate_engagements_split() {
    let p = unit(1, "P");
    let n1 = unit(0xF100000001, "A");
    let n2 = unit(0xF100000002, "B");
    let events = vec![
        ev(EventType::SwingDamage, Some(p.clone()), Some(n1.clone()), Some(5)),
        ev(EventType::SpellCastSuccess, Some(p.clone()), None, None),
        ev(EventType::SwingDamage, Some(p.clone()), Some(n2.clone()), Some(7)),
    ];
    let encounters = Encounter::all_encounters(events);
    assert_eq!(encounters.len(), 2);
    assert_eq!(encounters[0].events().len(), 1);
    assert_eq!(encounters[0].events()[0].amount(), Some(5));
    assert_eq!(encounters[1].events().len(), 1);
    assert_eq!(encounters[1].events()[0].amount(), Some(7));
}

#[test]
fn overlapping_windows_merge() {
    let p = unit(1, "P");
    let n1 = unit(0xF100000001, "A");
    let n2 = unit(0xF100000002, "B");
    let events = vec![
        ev(EventType::SwingDamage, Some(p.clone()), Some(n1.clone()), Some(1)),
        ev(EventType::SwingDamage, Some(p.clone()), Some(n2.clone()), Some(2)),
        ev(EventType::SwingDamage, Some(n1.clone()), Some(p.clone()), Some(3)),
    ];
    let encounters = Encounter::all_encounters(events);
    assert_eq!(encounters.len(), 1);
    assert_eq!(encounters[0].events().len(), 3);
    assert_eq!(encounters[0].involved().len(), 3);
}

#[test]
fn environmental_damage_opens_nothing() {
    let p = unit(1, "P");
    let events = vec![ev(
        EventType::EnvironmentalDamage,
        None,
        Some(p.clone()),
        Some(100),
    )];
    assert_eq!(Encounter::all_encounters(events).len(), 0);
}

#[test]
fn hostile_event_inside_one_side_opens_nothing() {
    let p1 = unit(1, "P1");
    let p2 = unit(2, "P2");
    let n1 = unit(0xF100000001, "A");
    let n2 = unit(0xF100000002, "B");
    let events = vec![
        ev(EventType::SwingDamage, Some(p1.clone()), Some(p2.clone()), Some(5)),
        ev(EventType::SwingDamage, Some(n1.clone()), Some(n2.clone()), Some(5)),
    ];
    assert_eq!(Encounter::all_encounters(events).len(), 0);
}

#[test]
fn same_side_anomaly_is_flagged() {
    let p1 = unit(1, "P1");
    let p2 = unit(2, "P2");
    let n = unit(0xF100000001, "N");
    let anomalous = ev(EventType::SwingDamage, Some(p1.clone()), Some(p2.clone()), Some(5));
    assert!(anomalous.has_same_side_anomaly());
    let normal = ev(EventType::SwingDamage, Some(p1.clone()), Some(n.clone()), Some(5));
    assert!(!normal.has_same_side_anomaly());
    let harmless = ev(EventType::SpellHeal, Some(p1.clone()), Some(p2.clone()), Some(5));
    assert!(!harmless.has_same_side_anomaly());
}

#[test]
fn hostile_event_without_parties_opens_nothing() {
    let events = vec![ev(EventType::SwingDamage, None, None, Some(5))];
    assert_eq!(Encounter::all_encounters(events).len(), 0);
}

#[test]
fn segmentation_is_deterministic() {
    let p = unit(1, "P");
    let n1 = unit(0xF100000001, "A");
    let n2 = unit(0xF100000002, "B");
    let events = vec![
        ev(EventType::SwingDamage, Some(p.clone()), Some(n1.clone()), Some(1)),
        ev(EventType::SpellCastSuccess, Some(p.clone()), None, None),
        ev(EventType::SpellDamage, Some(n2.clone()), Some(p.clone()), Some(4)),
        ev(EventType::UnitDied, None, Some(n2.clone()), None),
    ];
    let first = Encounter::all_encounters(events.clone());
    let second = Encounter::all_encounters(events);
    assert_eq!(first.len(), second.len());
    for (a, b) in first.iter().zip(second.iter()) {
        assert_eq!(a.events().len(), b.events().len());
        assert_eq!(a.involved().len(), b.involved().len());
        for (x, y) in a.involved().iter().zip(b.involved().iter()) {
            assert!(x == y);
        }
        for (x, y) in a.events().iter().zip(b.events().iter()) {
            assert_eq!(x.typ(), y.typ());
            assert_eq!(x.amount(), y.amount());
        }
    }
}

#[test]
fn encounters_are_disjoint_and_ordered() {
    let p = unit(1, "P");
    let n1 = unit(0xF100000001, "A");
    let n2 = unit(0xF100000002, "B");
    let n3 = unit(0xF100000003, "C");
    let events = vec![
        ev(EventType::SwingDamage, Some(p.clone()), Some(n1.clone()), Some(1)),
        ev(EventType::SwingDamage, Some(n1.clone()), Some(p.clone()), Some(2)),
        ev(EventType::SpellCastSuccess, Some(p.clone()), None, None),
        ev(EventType::SwingDamage, Some(p.clone()), Some(n2.clone()), Some(3)),
        ev(EventType::SpellCastSuccess, Some(p.clone()), None, None),
        ev(EventType::SwingDamage, Some(p.clone()), Some(n3.clone()), Some(4)),
    ];
    let encounters = Encounter::all_encounters(events);
    assert_eq!(encounters.len(), 3);
    let total: usize = encounters.iter().map(|e| e.events().len()).sum();
    assert!(total <= 6);
    assert_eq!(encounters[0].events().len(), 2);
    assert_eq!(encounters[1].events().len(), 1);
    assert_eq!(encounters[2].events().len(), 1);
}

#[test]
fn involvement_is_exact() {
    let a = unit(1, "A");
    let b = unit(0xF100000001, "B");
    let c = unit(0xF100000002, "C");
    let enc = Encounter::from_events(vec![
        ev(EventType::SwingDamage, Some(a.clone()), Some(b.clone()), Some(1)),
        ev(EventType::SwingDamage, Some(a.clone()), Some(c.clone()), Some(2)),
        ev(EventType::UnitDied, None, Some(b.clone()), None),
    ]);
    let involved = enc.involved();
    assert_eq!(involved.len(), 3);
    assert!(involved[0] == a);
    assert!(involved[1] == b);
    assert!(involved[2] == c);
}

#[test]
fn merge_windows_merges_overlaps() {
    let merged = merge_windows(vec![(1, 5), (4, 9)]);
    assert_eq!(merged, vec![(1, 9)]);
    let separate = merge_windows(vec![(1, 3), (7, 9)]);
    assert_eq!(separate, vec![(1, 3), (7, 9)]);
}

#[test]
fn merge_windows_touching_is_inclusive() {
    assert_eq!(merge_windows(vec![(1, 5), (5, 9)]), vec![(1, 9)]);
    assert_eq!(merge_windows(vec![(1, 5), (6, 9)]), vec![(1, 5), (6, 9)]);
    assert_eq!(merge_windows(vec![(0, 9), (2, 3), (4, 11)]), vec![(0, 11)]);
    assert_eq!(merge_windows(Vec::new()), Vec::new());
}
