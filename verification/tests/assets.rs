use std::sync::Arc;
use velocity::assets::{normalize, AssetKind, Assets, Lookup, TextureCompression, TextureLoadOptions};
use velocity::texture::{Texture, TextureFilter};

struct TestAsset;

fn assets() -> Assets<Arc<TestAsset>> {
    let mut assets = Assets::new();
    assets.insert_index("nested/test.png".to_string(), "unused".to_string());
    assets
}

fn make(_path: String) -> Result<Arc<TestAsset>, String> {
    Ok(Arc::new(TestAsset))
}

#[test]
fn cache_is_explicit_and_options_are_part_of_the_key() {
    let mut assets = assets();
    let kind = AssetKind::Texture;
    let a = assets.load("nested/test.png", kind, make).unwrap();
    let b = assets.load("nested/test.png", kind, make).unwrap();
    assert!(!Arc::ptr_eq(&a, &b));
    let cached = assets.preload("nested/test.png", kind, make).unwrap();
    assert!(Arc::ptr_eq(&cached, &assets.load("nested\\test.png", kind, make).unwrap()));
    let other = assets
        .preload_with(
            "nested/test.png",
            kind,
            TextureLoadOptions { compression: TextureCompression::RGBA8, ..Default::default() },
            make,
        )
        .unwrap();
    assert!(!Arc::ptr_eq(&cached, &other));
    let nearest = assets
        .preload_with(
            "nested/test.png",
            kind,
            TextureLoadOptions { filter: TextureFilter::Nearest, ..Default::default() },
            make,
        )
        .unwrap();
    assert!(!Arc::ptr_eq(&cached, &nearest));
    assert!(Arc::ptr_eq(
        &nearest,
        &assets
            .load_with(
                "nested/test.png",
                kind,
                TextureLoadOptions { filter: TextureFilter::Nearest, ..Default::default() },
                make,
            )
            .unwrap()
    ));
    assets.deload("nested\\test.png");
    assert_eq!(Arc::strong_count(&cached), 1);
    assert_eq!(Arc::strong_count(&other), 1);
    let weak = Arc::downgrade(&a);
    drop(a);
    assert!(weak.upgrade().is_none());
}

fn load_texture(path: String) -> Result<Arc<TestAsset>, String> {
    Err(format!("{path}: not found"))
}

#[test]
fn invalid_keys_and_images_return_errors() {
    for key in ["", "../test.png", "/test.png", "C:\\test.png", "nested/../test.png", "nested//test.png"] {
        assert!(assets().load(key, AssetKind::Texture, load_texture).is_err());
    }
    assert!(assets().load("missing.png", AssetKind::Texture, load_texture).is_err());
    assert!(Texture::from_file_bytes(b"not an image").is_err());
}

#[test]
fn normalize_accepts_relative_keys_and_unifies_separators() {
    assert_eq!(normalize("nested\\test.png").unwrap(), "nested/test.png");
    assert_eq!(normalize("a/b/c.png").unwrap(), "a/b/c.png");
    assert_eq!(normalize(".hidden/x").unwrap(), ".hidden/x");
    for bad in ["", "a/", "/a", "a//b", "./a", "a/..", "a:b", "..\\a"] {
        assert_eq!(normalize(bad).unwrap_err(), "asset keys must be relative paths inside assets");
    }
}

#[test]
fn normalizing_twice_changes_nothing() {
    for key in ["nested\\test.png", "a/b", "x\\y\\z.png"] {
        let once = normalize(key).unwrap();
        assert_eq!(normalize(&once).unwrap(), once);
    }
}

#[test]
fn load_reports_index_errors_and_unindexed_keys() {
    let mut broken: Assets<Arc<TestAsset>> = Assets::unavailable("assets folder unreadable".to_string());
    assert_eq!(
        broken.load("a.png", AssetKind::Texture, make).err().unwrap(),
        "assets folder unreadable"
    );
    assert_eq!(broken.len(), 0);
    assert!(broken.is_empty());
    let mut assets = assets();
    assert_eq!(
        assets.load("missing.png", AssetKind::Texture, make).err().unwrap(),
        "asset not indexed: missing.png"
    );
    assert_eq!(assets.len(), 1);
    assert!(!assets.is_empty());
}

#[test]
fn loader_gets_the_indexed_path_and_failed_preloads_are_not_cached() {
    let mut assets: Assets<Arc<String>> = Assets::new();
    assets.insert_index("a.png".to_string(), "/data/assets/a.png".to_string());
    let v = assets.load("a.png", AssetKind::Texture, |p| Ok(Arc::new(p))).unwrap();
    assert_eq!(*v, "/data/assets/a.png");
    assert!(assets.preload("a.png", AssetKind::Texture, |_| Err("broken".to_string())).is_err());
    let again = assets.preload("a.png", AssetKind::Texture, |p| Ok(Arc::new(p + "!"))).unwrap();
    assert_eq!(*again, "/data/assets/a.png!");
    let hit = assets.load("a.png", AssetKind::Texture, |_| Err("not called".to_string())).unwrap();
    assert!(Arc::ptr_eq(&again, &hit));
    let other_kind = assets.load("a.png", AssetKind::SpriteFrames, |_| Err("called".to_string()));
    assert_eq!(other_kind.err().unwrap(), "called");
}

#[test]
fn reindexing_a_key_replaces_its_path() {
    let mut assets: Assets<Arc<String>> = Assets::new();
    assets.insert_index("a.png".to_string(), "old".to_string());
    assets.insert_index("a.png".to_string(), "new".to_string());
    assert_eq!(assets.len(), 1);
    let v = assets.load("a.png", AssetKind::Texture, |p| Ok(Arc::new(p))).unwrap();
    assert_eq!(*v, "new");
}

#[test]
fn deload_keeps_other_keys() {
    let mut assets: Assets<Arc<String>> = Assets::new();
    assets.insert_index("a.png".to_string(), "a".to_string());
    assets.insert_index("b.png".to_string(), "b".to_string());
    let a = assets.preload("a.png", AssetKind::Texture, |p| Ok(Arc::new(p))).unwrap();
    let b = assets.preload("b.png", AssetKind::Texture, |p| Ok(Arc::new(p))).unwrap();
    assets.deload("a.png");
    assets.deload("../bad");
    assert_eq!(Arc::strong_count(&a), 1);
    assert_eq!(Arc::strong_count(&b), 2);
    let hit = assets.load("b.png", AssetKind::Texture, |_| Err("not called".to_string())).unwrap();
    assert!(Arc::ptr_eq(&b, &hit));
}

#[test]
fn default_options_are_bc7_and_linear() {
    let o = TextureLoadOptions::default();
    assert_eq!(o.compression, TextureCompression::BC7);
    assert_eq!(o.filter, TextureFilter::Linear);
    assert_eq!(TextureCompression::default(), TextureCompression::BC7);
}

#[test]
fn storing_again_replaces_the_cached_value() {
    let mut cache: Assets<u32> = Assets::new();
    cache.insert_index("a.png".to_string(), "assets/a.png".to_string());
    let options = TextureLoadOptions::default();
    match cache.lookup("a.png", AssetKind::Texture, options) {
        Ok(Lookup::Load { key, path }) => {
            assert_eq!(key, "a.png");
            assert_eq!(path, "assets/a.png");
        }
        _ => panic!("expected a load"),
    }
    cache.store("a.png".to_string(), AssetKind::Texture, options, 1);
    cache.store("a.png".to_string(), AssetKind::Texture, options, 2);
    assert_eq!(cache.len(), 1);
    assert!(matches!(cache.lookup("a.png", AssetKind::Texture, options), Ok(Lookup::Cached(2))));
    assert!(matches!(cache.lookup("a.png", AssetKind::SpriteFrames, options), Ok(Lookup::Load { .. })));
}
