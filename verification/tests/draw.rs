use bevy_potoo::draw::{draw_step, ColorKey, ImageCache, MaterialCache};
use bevy_potoo::ident::{Ident, Loc};
use bevy_potoo::protocol::GepData;

#[test]
fn draw_initializes_and_reveals_only_when_due() {
    let mut gep: GepData<&'static str> = GepData::new();
    let id = Ident::Loc(Loc::from_address(1));
    let step = draw_step(&mut gep, id, |_| 4, "hide");
    assert_eq!((step.entity, step.initialize, step.reveal), (4, true, true));
    assert!(gep.update().is_empty());
    let step = draw_step(&mut gep, id, |_| 5, "hide");
    assert_eq!((step.entity, step.initialize, step.reveal), (4, false, false));
    assert!(gep.update().is_empty());
    // a frame without the draw hides it
    assert_eq!(gep.update(), vec![(4, "hide")]);
    let step = draw_step(&mut gep, id, |_| 6, "hide");
    assert_eq!((step.entity, step.initialize, step.reveal), (4, false, true));
}

#[test]
fn materials_are_made_once_per_color() {
    let mut cache: MaterialCache<String> = MaterialCache::new();
    let red = ColorKey { red: 255, green: 0, blue: 0, alpha: 255 };
    let blue = ColorKey { red: 0, green: 0, blue: 255, alpha: 255 };
    let mut made = 0;
    assert_eq!(cache.get_or_insert(red, || { made += 1; "red".to_string() }), "red");
    assert_eq!(cache.get_or_insert(red, || { made += 1; "other".to_string() }), "red");
    assert_eq!(cache.get_or_insert(blue, || { made += 1; "blue".to_string() }), "blue");
    assert_eq!(made, 2);
    let mut cache2: MaterialCache<u8> = MaterialCache::default();
    assert_eq!(*cache2.get_or_insert(red, || 1), 1);
}

#[test]
fn images_are_loaded_once_per_path() {
    let mut cache: ImageCache<u32> = ImageCache::new();
    let mut loads = 0;
    assert_eq!(*cache.get_or_insert(b"a.png".to_vec(), || { loads += 1; 1 }), 1);
    assert_eq!(*cache.get_or_insert(b"a.png".to_vec(), || { loads += 1; 2 }), 1);
    assert_eq!(*cache.get_or_insert(b"b.png".to_vec(), || { loads += 1; 3 }), 3);
    assert_eq!(loads, 2);
    let mut other: ImageCache<u8> = ImageCache::default();
    assert_eq!(*other.get_or_insert(vec![], || 9), 9);
}
