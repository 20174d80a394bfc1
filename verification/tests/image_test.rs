use comic_core::cache::ImageCache;
use comic_core::loader::ImageLoader;
use image::DynamicImage;

/// Verified 1x1 RGB PNG (69 bytes). Generated via Python zlib.compress(level=6), CRC-validated.
const MINIMAL_PNG: &[u8] = &[
    0x89, 0x50, 0x4E, 0x47, 0x0D, 0x0A, 0x1A, 0x0A, 0x00, 0x00, 0x00, 0x0D, 0x49, 0x48, 0x44, 0x52,
    0x00, 0x00, 0x00, 0x01, 0x00, 0x00, 0x00, 0x01, 0x08, 0x02, 0x00, 0x00, 0x00, 0x90, 0x77, 0x53,
    0xDE, 0x00, 0x00, 0x00, 0x0C, 0x49, 0x44, 0x41, 0x54, 0x78, 0x9C, 0x63, 0xF8, 0xCF, 0xC0, 0x00,
    0x00, 0x03, 0x01, 0x01, 0x00, 0xC9, 0xFE, 0x92, 0xEF, 0x00, 0x00, 0x00, 0x00, 0x49, 0x45, 0x4E,
    0x44, 0xAE, 0x42, 0x60, 0x82,
];

#[test]
fn load_png_bytes_returns_metadata() {
    let (img, meta) = ImageLoader::load_bytes(MINIMAL_PNG, "test.png", 0)
        .expect("load_bytes should succeed for a valid PNG");

    assert_eq!(meta.width, 1, "metadata width must be 1");
    assert_eq!(meta.height, 1, "metadata height must be 1");
    assert_eq!(meta.filename, "test.png", "metadata filename must match");
    assert_eq!(img.width(), 1, "image width must be 1");
    assert_eq!(img.height(), 1, "image height must be 1");
}

#[test]
fn load_invalid_bytes_returns_err() {
    let result = ImageLoader::load_bytes(b"not an image", "bad.png", 0);
    assert!(result.is_err(), "loading garbage bytes must return Err");
}

#[test]
fn load_from_png_bytes_roundtrip() {
    let (img, meta) = ImageLoader::load_bytes(MINIMAL_PNG, "roundtrip.png", 7)
        .expect("roundtrip load must succeed");

    assert_eq!(img.width(), meta.width, "img.width() must equal meta.width");
    assert_eq!(
        img.height(),
        meta.height,
        "img.height() must equal meta.height"
    );
    assert_eq!(meta.width, 1);
    assert_eq!(meta.height, 1);
    assert_eq!(meta.index, 7, "index must be preserved");
}

#[test]
fn cache_miss_then_hit() {
    let mut cache = ImageCache::new(50);

    assert!(
        cache.get(0).is_none(),
        "cache miss: key 0 must not exist before insert"
    );

    let img = DynamicImage::new_rgb8(10, 10);
    cache.insert(0, img);

    assert!(
        cache.get(0).is_some(),
        "cache hit: key 0 must exist after insert"
    );
}

#[test]
fn cache_evicts_on_overflow() {
    let mut cache = ImageCache::new(3);

    for i in 0..4usize {
        cache.insert(i, DynamicImage::new_rgb8(1, 1));
    }

    assert_eq!(
        cache.len(),
        3,
        "LRU cache with capacity 3 must hold exactly 3 entries after 4 inserts"
    );
}

#[test]
fn cache_evicts_least_recently_used() {
    let mut cache = ImageCache::new(2);
    cache.insert(1, DynamicImage::new_rgb8(1, 1));
    cache.insert(2, DynamicImage::new_rgb8(1, 1));
    // Using page 1 makes page 2 the least recently used.
    assert!(cache.get(1).is_some());
    cache.insert(3, DynamicImage::new_rgb8(1, 1));
    assert!(cache.get(2).is_none());
    assert!(cache.get(1).is_some());
    assert!(cache.get(3).is_some());
    // Re-inserting a cached page does not grow the cache.
    cache.insert(3, DynamicImage::new_rgb8(2, 2));
    assert_eq!(cache.len(), 2);
    assert_eq!(cache.get(3).unwrap().width(), 2);
}

#[test]
fn cache_capacity_is_at_least_one() {
    let mut cache = ImageCache::new(0);
    assert!(cache.is_empty());
    cache.insert(5, DynamicImage::new_rgb8(1, 1));
    cache.insert(6, DynamicImage::new_rgb8(1, 1));
    assert_eq!(cache.len(), 1);
    assert!(cache.get(6).is_some());
    let default_cache = ImageCache::default();
    assert!(default_cache.is_empty());
}

#[test]
fn cache_gives_back_the_inserted_image() {
    let mut cache = ImageCache::new(2);
    cache.insert(0, DynamicImage::new_rgb8(1, 1));
    cache.insert(1, DynamicImage::new_rgb8(4, 5));
    // Re-inserting a page replaces its image.
    cache.insert(0, DynamicImage::new_rgb8(2, 3));
    let img = cache.get(0).expect("page 0 is cached");
    assert_eq!((img.width(), img.height()), (2, 3));
    let img = cache.get(1).expect("page 1 is cached");
    assert_eq!((img.width(), img.height()), (4, 5));
    // A third page evicts the least recently used one (page 0), and page 1
    // keeps its image.
    cache.insert(2, DynamicImage::new_rgb8(6, 7));
    assert!(cache.get(0).is_none());
    let img = cache.get(1).expect("page 1 is cached");
    assert_eq!((img.width(), img.height()), (4, 5));
    let img = cache.get(2).expect("page 2 is cached");
    assert_eq!((img.width(), img.height()), (6, 7));
}
