use wowlog::{
    DamagingFilter, Event, EventType, FilteredEvents, HealingFilter, HostileFilter, Log, Unit,
};

fn unit(id: u64, name: &str) -> Unit {
    Unit::new(id, name.to_string())
}

fn ev(typ: EventType, source: Option<Unit>, target: Option<Unit>, amount: Option<u64>) -> Event {
    Event::new(0, typ, source, target, amount)
}

fn sample_log() -> Log {
    let p = unit(1, "P");
    let n = unit(0xF100000001, "N");
    Log::from_events(vec![
        ev(EventType::SwingDamage, Some(p.clone()), Some(n.clone()), Some(5)),
        ev(EventType::SpellHeal, Some(p.clone()), Some(p.clone()), Some(9)),
        ev(EventType::SwingMissed, Some(n.clone()), Some(p.clone()), None),
        ev(EventType::SpellCastSuccess, Some(p.clone()), None, None),
        ev(EventType::EnvironmentalDamage, None, Some(p.clone()), Some(7)),
    ])
}

#[test]
fn and_narrows_included_positions() {
    let log = sample_log();
    let view = FilteredEvents::new(&log, true).and(&HostileFilter);
    assert_eq!(view.included_positions(), vec![0, 2]);
}

#[test]
fn or_widens_from_empty() {
    let log = sample_log();
    let view = FilteredEvents::new(&log, false).or(&HealingFilter);
    assert_eq!(view.included_positions(), vec![1]);
}

#[test]
fn all_excluded_view_includes_nothing() {
    let log = sample_log();
    let view = FilteredEvents::new(&log, false);
    assert_eq!(view.included_positions(), Vec::<usize>::new());
}

#[test]
fn and_then_and_equals_combined() {
    let log = sample_log();
    let first = FilteredEvents::new(&log, true)
        .and(&HostileFilter)
        .and(&DamagingFilter)
        .included_positions();
    let second = FilteredEvents::new(&log, true)
        .and(&DamagingFilter)
        .and(&HostileFilter)
        .included_positions();
    // Hostile and damaging at once: only the opening swing.
    assert_eq!(first, vec![0]);
    assert_eq!(first, second);
}

#[test]
fn or_then_or_equals_combined() {
    let log = sample_log();
    let first = FilteredEvents::new(&log, false)
        .or(&HostileFilter)
        .or(&HealingFilter)
        .included_positions();
    let second = FilteredEvents::new(&log, false)
        .or(&HealingFilter)
        .or(&HostileFilter)
        .included_positions();
    // Hostile or healing: the swing, the heal, and the miss.
    assert_eq!(first, vec![0, 1, 2]);
    assert_eq!(first, second);
}

#[test]
fn and_then_or_widens_again() {
    let log = sample_log();
    let view = FilteredEvents::new(&log, true)
        .and(&HostileFilter)
        .or(&HealingFilter);
    assert_eq!(view.included_positions(), vec![0, 1, 2]);
}

#[test]
fn log_and_starts_fully_included() {
    let log = sample_log();
    let direct = log.and(&DamagingFilter).included_positions();
    assert_eq!(direct, vec![0, 4]);
}

#[test]
fn log_or_starts_fully_excluded() {
    let log = sample_log();
    let direct = log.or(&DamagingFilter).included_positions();
    assert_eq!(direct, vec![0, 4]);
}
