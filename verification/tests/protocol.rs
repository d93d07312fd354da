use bevy_potoo::ident::{CallsiteIdent, EntityIdent, Ident, Key, Loc};
use bevy_potoo::protocol::GepData;

fn loc(address: u64) -> Loc {
    Loc::from_address(address)
}

#[test]
fn get_gives_the_same_entity_every_time() {
    let mut gep: GepData<u32> = GepData::new();
    let mut spawned = 0;
    let id = Ident::Loc(loc(10));
    let first = gep.get(id, |_| {
        spawned += 1;
        7
    });
    let second = gep.get(id, |_| 99);
    gep.update();
    let third = gep.get(id, |_| 99);
    assert_eq!(spawned, 1);
    assert_eq!(first, 7);
    assert_eq!(second, 7);
    assert_eq!(third, 7);
}

#[test]
fn spawn_receives_the_entity_identity() {
    let mut gep: GepData<u32> = GepData::new();
    let mut seen = None;
    gep.get(Ident::LocKeyed(loc(3), Key::U64(4)), |e| {
        seen = Some(e);
        1
    });
    assert_eq!(seen, Some(EntityIdent::WithKey(loc(3), Key::U64(4))));
}

#[test]
fn keyed_identities_share_their_entity_across_call_sites() {
    let mut gep: GepData<u32> = GepData::new();
    let a = gep.get(Ident::Keyed(loc(1), Key::Str("player")), |_| 5);
    let b = gep.get(Ident::Keyed(loc(2), Key::Str("player")), |_| 6);
    let c = gep.get(Ident::LocKeyed(loc(1), Key::Str("player")), |_| 8);
    let d = gep.get(Ident::LocKeyed(loc(2), Key::Str("player")), |_| 9);
    assert_eq!(a, 5);
    assert_eq!(b, 5);
    assert_eq!(c, 8);
    assert_eq!(d, 9);
}

#[test]
fn string_keys_compare_by_content() {
    let owned: &'static str = String::from("tree").leak();
    let mut gep: GepData<u32> = GepData::new();
    let a = gep.get(Ident::Keyed(loc(1), Key::Str("tree")), |_| 11);
    let b = gep.get(Ident::Keyed(loc(1), Key::Str(owned)), |_| 12);
    assert_eq!(a, b);
    assert!(Key::Str("tree") == Key::Str(owned));
    assert!(Key::Str("tree") != Key::Str("bush"));
    assert!(Key::U64(1) != Key::Str("1"));
}

#[test]
fn once_holds_for_the_whole_first_frame_only() {
    let mut gep: GepData<u32> = GepData::new();
    let id = Ident::Loc(loc(20));
    assert!(gep.when_once(id));
    assert!(gep.when_once(id));
    gep.update();
    assert!(!gep.when_once(id));
    gep.update();
    gep.update();
    assert!(!gep.when_once(id));
}

#[test]
fn once_after_get_in_the_same_frame() {
    let mut gep: GepData<u32> = GepData::new();
    let id = Ident::LocKeyed(loc(21), Key::U64(0));
    gep.get(id, |_| 1);
    assert!(gep.when_once(id));
    let other = Ident::LocKeyed(loc(21), Key::U64(1));
    assert!(gep.when_once(other));
    gep.update();
    assert!(!gep.when_once(id));
    assert!(gep.when_once(Ident::LocKeyed(loc(21), Key::U64(2))));
}

#[test]
fn activate_when_not_called_in_the_previous_frame() {
    let mut gep: GepData<u32> = GepData::new();
    let id = Ident::Loc(loc(30));
    assert!(gep.when_activate(id));
    assert!(gep.when_activate(id));
    gep.update();
    assert!(!gep.when_activate(id));
    gep.update();
    // skipped a frame
    gep.update();
    assert!(gep.when_activate(id));
}

#[test]
fn deactivation_runs_after_a_frame_without_the_call() {
    let mut gep: GepData<&'static str> = GepData::new();
    let id = Ident::Loc(loc(40));
    let e = gep.get(id, |_| 42);
    gep.on_deactivate(id, "hide");
    assert!(gep.update().is_empty());
    // next frame: not called
    assert_eq!(gep.update(), vec![(e, "hide")]);
    // fires once only
    assert!(gep.update().is_empty());
}

#[test]
fn deactivation_is_cancelled_by_a_call() {
    let mut gep: GepData<&'static str> = GepData::new();
    let id = Ident::Loc(loc(41));
    gep.get(id, |_| 1);
    gep.on_deactivate(id, "hide");
    assert!(gep.update().is_empty());
    assert!(!gep.when_once(id));
    assert!(gep.update().is_empty());
    assert!(gep.update().is_empty());
}

#[test]
fn deactivation_needs_an_entity() {
    let mut gep: GepData<&'static str> = GepData::new();
    let id = Ident::Loc(loc(42));
    gep.on_deactivate(id, "hide");
    gep.update();
    assert!(gep.update().is_empty());
}

#[test]
fn deactivations_come_back_grouped_by_call_site() {
    let mut gep: GepData<u32> = GepData::new();
    let a = Ident::Loc(loc(50));
    let b = Ident::Loc(loc(51));
    let ea = gep.get(a, |_| 100);
    let eb = gep.get(b, |_| 200);
    gep.on_deactivate(a, 1);
    gep.on_deactivate(b, 2);
    gep.on_deactivate(a, 3);
    assert!(gep.update().is_empty());
    assert_eq!(gep.update(), vec![(ea, 1), (ea, 3), (eb, 2)]);
}

#[test]
fn only_absent_call_sites_deactivate() {
    let mut gep: GepData<u32> = GepData::new();
    let a = Ident::Loc(loc(60));
    let b = Ident::Loc(loc(61));
    let ea = gep.get(a, |_| 1);
    gep.get(b, |_| 2);
    gep.on_deactivate(a, 10);
    gep.on_deactivate(b, 20);
    gep.update();
    gep.when_activate(b);
    assert_eq!(gep.update(), vec![(ea, 10)]);
}

#[test]
fn default_is_empty() {
    let mut gep: GepData<u32> = GepData::default();
    assert!(gep.update().is_empty());
    assert!(gep.when_once(Ident::Loc(loc(1))));
}

#[test]
fn key_conversions() {
    assert!(Key::from(5u64) == Key::U64(5));
    assert!(Key::from(6u32) == Key::U64(6));
    assert!(Key::from(7usize) == Key::U64(7));
    assert!(Key::from("seven") == Key::Str("seven"));
}

#[test]
fn ident_conversions() {
    let l = loc(9);
    let k = Key::U64(1);
    assert_eq!(CallsiteIdent::from(Ident::Loc(l)), CallsiteIdent::LocOnly(l));
    assert_eq!(CallsiteIdent::from(Ident::Keyed(l, k)), CallsiteIdent::WithKey(l, k));
    assert_eq!(CallsiteIdent::from(Ident::LocKeyed(l, k)), CallsiteIdent::WithKey(l, k));
    assert_eq!(EntityIdent::from(Ident::Loc(l)), EntityIdent::LocOnly(l));
    assert_eq!(EntityIdent::from(Ident::Keyed(l, k)), EntityIdent::Global(k));
    assert_eq!(EntityIdent::from(Ident::LocKeyed(l, k)), EntityIdent::WithKey(l, k));
    assert!(CallsiteIdent::LocOnly(l) != CallsiteIdent::LocOnly(loc(8)));
    assert_eq!(l.callsite(), 9);
}
