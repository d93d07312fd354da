use bevy_potoo::flurp::{FlurpStorage, ImmidiateId};
use bevy_potoo::pending::DiffAction;

#[test]
fn flurp_queues_once_per_call_site() {
    let mut storage: FlurpStorage<u32> = FlurpStorage::new();
    assert!(!storage.contains(&ImmidiateId::Single { callsite: 1 }));
    storage.flurp(1, 10);
    assert!(storage.contains(&ImmidiateId::Single { callsite: 1 }));
    assert!(storage.flurp_keyed(1, &"a", 12));
    assert!(!storage.flurp_keyed(1, &"a", 13));
    assert!(storage.flurp_keyed(1, &"b", 14));
    // no inactive entity: nothing happens and the flurps stay queued
    assert!(storage.apply(&vec![], &vec![]).is_empty());
    assert!(storage.contains(&ImmidiateId::Single { callsite: 1 }));
    let actions = storage.apply(&vec![], &vec![(50, ImmidiateId::Single { callsite: 99 })]);
    let mut spawned: Vec<u32> = actions
        .into_iter()
        .map(|a| match a {
            DiffAction::Spawn { diff, .. } => diff,
            _ => panic!("only spawns expected"),
        })
        .collect();
    spawned.sort();
    assert_eq!(spawned, vec![10, 12, 14]);
}

#[test]
fn flurps_reach_their_entities() {
    let mut storage: FlurpStorage<&'static str> = FlurpStorage::default();
    let id = ImmidiateId::Single { callsite: 4 };
    storage.flurp(4, "f");
    let actions = storage.apply(&vec![], &vec![(9, id)]);
    assert!(matches!(actions[..], [DiffAction::Activate { entity: 9, diff: "f" }]));
    assert!(!storage.contains(&id));
    // one round per inactive entity: the rounds after the first deactivate
    // every active entity
    storage.flurp(4, "g");
    let other = ImmidiateId::Single { callsite: 5 };
    let actions = storage.apply(&vec![(9, id)], &vec![(7, other), (8, other)]);
    assert!(matches!(
        actions[..],
        [DiffAction::Refresh { entity: 9, diff: "g" }, DiffAction::Deactivate { entity: 9 }]
    ));
}

#[test]
fn flurp_hashed_uses_the_given_hash() {
    let mut storage: FlurpStorage<u32> = FlurpStorage::new();
    storage.flurp_hashed(2, 77, 1);
    assert!(storage.contains(&ImmidiateId::Keyed { callsite: 2, ident: 77 }));
    assert!(!storage.contains(&ImmidiateId::Single { callsite: 2 }));
    let h = bevy_potoo::diffs::key_hash(&"k");
    assert!(storage.flurp_keyed(3, &"k", 2));
    assert!(storage.contains(&ImmidiateId::Keyed { callsite: 3, ident: h }));
}
