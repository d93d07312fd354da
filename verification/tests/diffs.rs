use bevy_potoo::diffs::{hash_ident, key_hash, key_part, Diffs, ImmidiateId};
use bevy_potoo::pending::DiffAction;

fn describe(actions: Vec<DiffAction<ImmidiateId, &'static str>>) -> Vec<String> {
    actions
        .into_iter()
        .map(|a| match a {
            DiffAction::Activate { entity, diff } => format!("activate {entity} {diff}"),
            DiffAction::Refresh { entity, diff } => format!("refresh {entity} {diff}"),
            DiffAction::Deactivate { entity } => format!("deactivate {entity}"),
            DiffAction::Spawn { id, diff } => format!("spawn {:?} {diff}", id),
        })
        .collect()
}

#[test]
fn diffs_are_matched_against_entities() {
    let a = ImmidiateId::at(1);
    let b = ImmidiateId::keyed_at(1, 5);
    let c = ImmidiateId::at(2);
    let d = ImmidiateId::at(3);
    let mut diffs: Diffs<&'static str> = Diffs::new();
    assert!(diffs.insert(a, "a").is_none());
    assert!(diffs.insert(b, "b").is_none());
    assert!(diffs.insert(c, "c").is_none());
    let active = vec![(10, a), (11, d)];
    let inactive = vec![(12, b)];
    let actions = describe(diffs.apply_diffs(&active, &inactive));
    assert_eq!(
        actions,
        vec![
            "activate 12 b".to_string(),
            "refresh 10 a".to_string(),
            "deactivate 11".to_string(),
            format!("spawn {:?} c", c),
        ]
    );
    assert!(!diffs.contains(&a));
    assert!(diffs.apply_diffs(&vec![], &vec![]).is_empty());
}

#[test]
fn a_second_diff_replaces_the_first() {
    let a = ImmidiateId::at(1);
    let mut diffs: Diffs<u32> = Diffs::default();
    assert_eq!(diffs.insert(a, 1), None);
    assert!(diffs.contains(&a));
    assert_eq!(diffs.insert(a, 2), Some(1));
}

#[test]
fn one_diff_for_two_entities_of_one_identity() {
    let a = ImmidiateId::at(7);
    let mut diffs: Diffs<&'static str> = Diffs::new();
    diffs.insert(a, "a");
    let actions = describe(diffs.apply_diffs(&vec![(1, a), (2, a)], &vec![]));
    assert_eq!(actions, vec!["refresh 1 a".to_string(), "deactivate 2".to_string()]);
}

#[test]
fn keyed_identity_hashes_are_stable() {
    assert_eq!(hash_ident(&"key"), hash_ident(&"key"));
    assert_ne!(hash_ident(&1u64), hash_ident(&2u64));
}

#[test]
fn key_part_is_the_hash_plus_one() {
    assert_eq!(key_part(0), 1);
    assert_eq!(key_part(41), 42);
    assert_eq!(key_part(u64::MAX), 0);
    let h = key_hash(&"key");
    assert_eq!(hash_ident(&"key"), h.wrapping_add(1));
    assert_eq!(key_hash(&"key"), h);
}
