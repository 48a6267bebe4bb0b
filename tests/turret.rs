use lab1::geometry::Offset;
use lab1::turret::{Turret, TurretError, DEFAULT_TICKS_TO_SHOOT};

fn active_turret(offsets: Vec<Offset>, ticks_to_shoot: i32) -> Turret {
    let mut t = Turret::new(offsets, ticks_to_shoot).unwrap();
    t.set_shooting(true);
    t
}

#[test]
fn two_offsets_fire_every_second_tick_starting_at_index_one() {
    let mut t = active_turret(vec![Offset::new(1, 0), Offset::new(-1, 0)], 2);
    let mut fired = Vec::new();
    for tick in 1..=6 {
        if let Some(o) = t.shoot() {
            fired.push((tick, o));
        }
    }
    assert_eq!(
        fired,
        vec![
            (2, Offset::new(-1, 0)),
            (4, Offset::new(1, 0)),
            (6, Offset::new(-1, 0)),
        ]
    );
    assert_eq!(t.total_shot, 3);
    assert_eq!(t.ticks_since_shot, 0);
}

#[test]
fn default_turret_fires_first_on_tick_thirty_then_every_thirty() {
    let mut t = Turret::default();
    t.set_shooting(true);
    let mut ticks = Vec::new();
    for tick in 1..=95 {
        if t.shoot().is_some() {
            ticks.push(tick);
        }
    }
    assert_eq!(ticks, vec![30, 60, 90]);
    assert_eq!(t.ticks_since_shot, 5);
}

#[test]
fn default_turret_configuration() {
    let t = Turret::default();
    assert_eq!(t.bullet_spawn_offsets, vec![Offset::new(25, 30), Offset::new(-25, 30)]);
    assert_eq!(t.ticks_to_shoot, DEFAULT_TICKS_TO_SHOOT);
    assert_eq!(t.ticks_to_shoot, 30);
    assert_eq!(t.ticks_since_shot, 0);
    assert!(!t.is_shooting);
    assert_eq!(t.total_shot, 0);
}

#[test]
fn inactive_turret_never_fires() {
    let mut t = Turret::default();
    for _ in 0..1000 {
        assert_eq!(t.shoot(), None);
    }
    assert_eq!(t.total_shot, 0);
    assert_eq!(t.ticks_since_shot, 1000);
}

#[test]
fn turret_fires_at_once_when_activated_after_cooldown() {
    let mut t = Turret::new(vec![Offset::new(3, 4)], 5).unwrap();
    for _ in 0..10 {
        assert_eq!(t.shoot(), None);
    }
    t.set_shooting(true);
    assert_eq!(t.shoot(), Some(Offset::new(3, 4)));
    assert_eq!(t.ticks_since_shot, 0);
}

#[test]
fn releasing_the_trigger_stops_fire() {
    let mut t = active_turret(vec![Offset::new(0, 1)], 1);
    assert!(t.shoot().is_some());
    t.set_shooting(false);
    assert_eq!(t.shoot(), None);
    assert_eq!(t.total_shot, 1);
}

#[test]
fn round_robin_over_three_offsets() {
    let offsets = vec![Offset::new(0, 0), Offset::new(1, 1), Offset::new(2, 2)];
    let mut t = active_turret(offsets.clone(), 1);
    let mut counts = [0usize; 3];
    let mut order = Vec::new();
    for _ in 0..12 {
        let o = t.shoot().unwrap();
        let i = offsets.iter().position(|p| *p == o).unwrap();
        counts[i] += 1;
        order.push(i);
    }
    assert_eq!(counts, [4, 4, 4]);
    assert_eq!(&order[..4], &[1, 2, 0, 1]);
}

#[test]
fn tick_counter_holds_at_its_top() {
    let mut t = Turret::default();
    t.ticks_since_shot = i32::MAX;
    assert_eq!(t.shoot(), None);
    assert_eq!(t.ticks_since_shot, i32::MAX);
}

#[test]
fn empty_offsets_are_refused() {
    assert_eq!(Turret::new(Vec::new(), 3).err(), Some(TurretError::NoOffsets));
    assert_eq!(Turret::new(Vec::new(), 0).err(), Some(TurretError::NoOffsets));
}

#[test]
fn non_positive_cooldown_is_refused() {
    let o = vec![Offset::new(1, 2)];
    assert_eq!(Turret::new(o.clone(), 0).err(), Some(TurretError::NonPositiveCooldown));
    assert_eq!(Turret::new(o, -4).err(), Some(TurretError::NonPositiveCooldown));
}

#[test]
fn valid_configuration_is_accepted() {
    let t = Turret::new(vec![Offset::new(1, 2)], 1).unwrap();
    assert_eq!(t.ticks_to_shoot, 1);
    assert_eq!(t.bullet_spawn_offsets, vec![Offset::new(1, 2)]);
    assert!(!t.is_shooting);
}
