use std::sync::Arc;
use velocity::scene::{DrawHandle, GenerationCounter, Scene};

#[derive(Debug)]
struct Texture;

#[derive(Debug)]
struct Sprite {
    texture: Arc<Texture>,
    x: f32,
}

#[derive(Debug)]
struct Animated {
    frames: Arc<Texture>,
    sprite: Sprite,
}

fn texture() -> Arc<Texture> {
    Arc::new(Texture)
}

fn sprite(texture: Arc<Texture>) -> Sprite {
    Sprite { texture, x: 0. }
}

fn animated(frames: Arc<Texture>) -> Animated {
    Animated { sprite: sprite(frames.clone()), frames }
}

#[test]
fn stale_handles_cannot_alias_reused_slots_or_other_scenes() {
    let mut gens = GenerationCounter::new();
    let mut scene: Scene<Sprite, Animated> = Scene::new();
    let old = scene.add_sprite(&mut gens, sprite(texture())).unwrap();
    assert!(scene.remove_sprite(old));
    assert!(!scene.remove_sprite(old));
    let new = scene.add_sprite(&mut gens, sprite(texture())).unwrap();
    assert_eq!(old.index(), new.index());
    assert_ne!(old, new);
    assert!(scene.get_sprite(old).is_none());
    assert!(scene.get_sprite_mut(old).is_none());
    let mut other: Scene<Sprite, Animated> = Scene::new();
    let foreign = other.add_sprite(&mut gens, sprite(texture())).unwrap();
    assert!(scene.get_sprite(foreign).is_none());
    assert!(!scene.remove_sprite(foreign));
    scene.clear();
    let after_clear = scene.add_sprite(&mut gens, sprite(texture())).unwrap();
    assert!(scene.get_sprite(new).is_none());
    assert_ne!(after_clear, new);
    drop(scene);
    let mut replacement: Scene<Sprite, Animated> = Scene::new();
    replacement.add_sprite(&mut gens, sprite(texture())).unwrap();
    assert!(replacement.get_sprite(after_clear).is_none());
}

#[test]
fn mixed_order_survives_removal_and_slot_reuse() {
    let mut gens = GenerationCounter::new();
    let mut scene: Scene<Sprite, Animated> = Scene::new();
    let a = scene.add_sprite(&mut gens, sprite(texture())).unwrap();
    let b = scene.add_animated(&mut gens, animated(texture())).unwrap();
    let c = scene.add_sprite(&mut gens, sprite(texture())).unwrap();
    assert!(scene.draw_order() == [DrawHandle::Sprite(a), DrawHandle::Animated(b), DrawHandle::Sprite(c)]);
    scene.remove_sprite(a);
    let d = scene.add_sprite(&mut gens, sprite(texture())).unwrap();
    assert_eq!(d.index(), a.index());
    assert!(scene.draw_order() == [DrawHandle::Animated(b), DrawHandle::Sprite(c), DrawHandle::Sprite(d)]);
    scene.get_animated_mut(b).unwrap().sprite.x = 12.;
    assert_eq!(scene.get_animated(b).unwrap().sprite.x, 12.);
    scene.remove_animated(b);
    let e = scene.add_animated(&mut gens, animated(texture())).unwrap();
    assert_eq!(b.index(), e.index());
    assert!(scene.get_animated(b).is_none());
    assert!(scene.draw_order().last() == Some(&DrawHandle::Animated(e)));
}

#[test]
fn handles_do_not_keep_scene_objects_alive() {
    let mut gens = GenerationCounter::new();
    let texture = texture();
    let weak = Arc::downgrade(&texture);
    let mut scene: Scene<Sprite, Animated> = Scene::new();
    let sprite_handle = scene.add_sprite(&mut gens, sprite(texture.clone())).unwrap();
    let animated_handle = scene.add_animated(&mut gens, animated(texture)).unwrap();
    assert_eq!(weak.strong_count(), 3);
    scene.remove_sprite(sprite_handle);
    assert_eq!(weak.strong_count(), 2);
    drop(scene);
    assert!(weak.upgrade().is_none());
    let mut replacement: Scene<Sprite, Animated> = Scene::new();
    replacement.add_animated(&mut gens, animated(self::texture())).unwrap();
    assert!(replacement.get_animated(animated_handle).is_none());
}

#[test]
fn removed_handle_stays_dead_after_slot_reuse() {
    let mut gens = GenerationCounter::new();
    let mut scene: Scene<u32, u32> = Scene::new();
    let h = scene.add_sprite(&mut gens, 1).unwrap();
    assert!(scene.remove_sprite(h));
    let h2 = scene.add_sprite(&mut gens, 2).unwrap();
    assert_eq!(h.index(), h2.index());
    assert!(h2.generation() > h.generation());
    assert!(scene.get_sprite(h).is_none());
    assert_eq!(scene.get_sprite(h2), Some(&2));
    assert_eq!(scene.len(), 1);
    assert!(!scene.is_empty());
}

#[test]
fn generations_count_up_and_stop_at_exhaustion() {
    let mut gens = GenerationCounter::new();
    assert_eq!(gens.generation(), Some(1));
    assert_eq!(gens.generation(), Some(2));
    let mut scene: Scene<u32, u32> = Scene::new();
    let h = scene.add_sprite(&mut gens, 7).unwrap();
    assert_eq!(h.generation(), 3);
    assert_eq!(h.index(), 0);
}

#[test]
fn clear_empties_the_scene() {
    let mut gens = GenerationCounter::new();
    let mut scene: Scene<u32, u32> = Scene::new();
    scene.add_sprite(&mut gens, 1).unwrap();
    scene.add_animated(&mut gens, 2).unwrap();
    assert_eq!(scene.len(), 2);
    scene.clear();
    assert!(scene.is_empty());
    assert!(scene.draw_order().is_empty());
}

#[test]
fn a_freed_sprite_slot_is_reused_first() {
    let mut generations = GenerationCounter::new();
    let mut scene: Scene<u32, u32> = Scene::new();
    let a = scene.add_sprite(&mut generations, 1).unwrap();
    let b = scene.add_sprite(&mut generations, 2).unwrap();
    assert!(scene.remove_sprite(a));
    let c = scene.add_sprite(&mut generations, 3).unwrap();
    assert_eq!(c.index(), a.index());
    assert_ne!(c, a);
    let d = scene.add_sprite(&mut generations, 4).unwrap();
    assert_eq!(d.index(), 2);
    assert_ne!(d.index(), b.index());
}
