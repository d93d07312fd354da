use bevy_potoo::ident::{Key, Loc};
use bevy_potoo::targeted::{GepData, Ident};

fn loc(address: u64) -> Loc {
    Loc::from_address(address)
}

#[test]
fn targeted_entity_is_spawned_once() {
    let mut gep: GepData<u32> = GepData::new();
    let mut spawned = Vec::new();
    let t = gep.target(Ident::Loc(loc(1)), loc(100));
    let a = t.on_update(&mut gep, |i| {
        spawned.push(i);
        5
    });
    let t = gep.target(Ident::Loc(loc(1)), loc(100));
    let b = t.on_update(&mut gep, |_| 6);
    assert_eq!((a, b), (5, 5));
    assert_eq!(spawned, vec![Ident::Loc(loc(1))]);
}

#[test]
fn once_and_awake_run_when_absent_from_the_previous_frame() {
    let mut gep: GepData<u32> = GepData::new();
    let id = Ident::LocAndKey(loc(2), Key::U64(3));
    let t = gep.target(id, loc(100));
    assert!(t.once(&mut gep, |_| 1).run);
    assert!(t.on_awake(&mut gep, |_| 1).run);
    gep.update();
    let t = gep.target(id, loc(100));
    assert!(!t.once(&mut gep, |_| 1).run);
    assert!(!t.on_awake(&mut gep, |_| 1).run);
    gep.update();
    gep.update();
    let t = gep.target(id, loc(100));
    assert!(t.once(&mut gep, |_| 1).run);
    assert_eq!(t.once(&mut gep, |_| 9).entity, 1);
}

#[test]
fn key_targets_use_the_caller_as_call_site() {
    let mut gep: GepData<u32> = GepData::new();
    let a = gep.target(Ident::Key(Key::Str("boss")), loc(10));
    let ea = a.on_update(&mut gep, |_| 7);
    gep.update();
    // another caller, same key: same entity, but a call of its own
    let b = gep.target(Ident::Key(Key::Str("boss")), loc(11));
    assert!(b.once(&mut gep, |_| 8).run);
    assert_eq!(b.on_update(&mut gep, |_| 8), ea);
    let c = gep.target(Ident::Key(Key::Str("boss")), loc(10));
    assert!(!c.once(&mut gep, |_| 8).run);
    assert_eq!(c.ident(), Ident::Key(Key::Str("boss")));
}

#[test]
fn sleep_runs_at_the_end_of_a_first_frame() {
    let mut gep: GepData<&'static str> = GepData::new();
    let id = Ident::Loc(loc(20));
    let t = gep.target(id, loc(100));
    let e = t.on_update(&mut gep, |_| 3);
    t.on_sleep(&mut gep, "sleep");
    assert_eq!(gep.update(), vec![(e, "sleep")]);
    let t = gep.target(id, loc(100));
    t.on_sleep(&mut gep, "sleep");
    assert!(gep.update().is_empty());
    assert!(gep.update().is_empty());
}

#[test]
fn sleep_needs_an_entity() {
    let mut gep: GepData<&'static str> = GepData::new();
    let t = gep.target(Ident::Loc(loc(21)), loc(100));
    t.on_sleep(&mut gep, "sleep");
    assert!(gep.update().is_empty());
}

#[test]
fn ident_conversions_of_the_targeted_form() {
    assert_eq!(Ident::from(4u64), Ident::Key(Key::U64(4)));
    assert_eq!(Ident::from("a"), Ident::Key(Key::Str("a")));
    assert_eq!(Ident::from(loc(1)), Ident::Loc(loc(1)));
    assert_eq!(Ident::from((loc(1), 2usize)), Ident::LocAndKey(loc(1), Key::U64(2)));
    assert!(Ident::Loc(loc(1)) != Ident::Key(Key::U64(1)));
    let mut gep: GepData<u32> = GepData::default();
    assert!(gep.update().is_empty());
}
