use cms_core::errors::CmsError;
use cms_core::media::{
    extension_of, listing_names, resize_to_webp, sort_listing, store_relative_path, ListingEntry,
    MediaStore,
};

#[test]
fn extension_follows_the_last_dot() {
    assert_eq!(extension_of("photo.jpg"), "jpg");
    assert_eq!(extension_of("archive.tar.gz"), "gz");
    assert_eq!(extension_of("noext"), "");
    assert_eq!(extension_of("trailing."), "");
    // a leading dot marks a hidden file's stem, not an extension
    assert_eq!(extension_of(".hidden"), "");
    assert_eq!(extension_of(".tar.gz"), "gz");
}

#[test]
fn store_relative_strips_the_public_prefix() {
    assert_eq!(
        store_relative_path("../public/assets/image/upload/a.png"),
        "/assets/image/upload/a.png"
    );
}

#[test]
fn store_relative_leaves_other_paths_alone() {
    assert_eq!(store_relative_path("/assets/image/upload/a.png"), "/assets/image/upload/a.png");
    assert_eq!(store_relative_path("short"), "short");
    assert_eq!(store_relative_path("../private/x.png"), "../private/x.png");
}

#[test]
fn resize_rejects_bytes_that_are_no_image() {
    let garbage = vec![0u8, 1, 2, 3, 4, 5, 6, 7];
    let r = resize_to_webp(&garbage, 4, 4);
    assert!(matches!(r, Err(CmsError::UnsupportedImage)));
}

#[test]
fn resize_scales_and_reencodes_a_real_image() {
    // a 2 by 2 red PNG, made in memory
    let img = image::RgbaImage::from_pixel(2, 2, image::Rgba([200u8, 10, 10, 255]));
    let mut png = std::io::Cursor::new(Vec::new());
    image::DynamicImage::ImageRgba8(img)
        .write_to(&mut png, image::ImageFormat::Png)
        .unwrap();
    let bytes = png.into_inner();

    let out = resize_to_webp(&bytes, 4, 4).unwrap();
    assert_ne!(out, bytes);
    let decoded = image::load_from_memory(&out).unwrap();
    assert_eq!(decoded.width(), 4);
    assert_eq!(decoded.height(), 4);
}

#[test]
fn resizing_the_same_bytes_twice_gives_the_same_webp() {
    let img = image::RgbaImage::from_pixel(3, 2, image::Rgba([5u8, 120, 200, 255]));
    let mut png = std::io::Cursor::new(Vec::new());
    image::DynamicImage::ImageRgba8(img)
        .write_to(&mut png, image::ImageFormat::Png)
        .unwrap();
    let bytes = png.into_inner();
    let first = resize_to_webp(&bytes, 8, 8).unwrap();
    let second = resize_to_webp(&bytes, 8, 8).unwrap();
    assert_eq!(first, second);
}

fn entry(modified: u128, name: &str) -> ListingEntry {
    ListingEntry { modified, name: name.to_string() }
}

#[test]
fn listing_sorts_by_modification_time_oldest_first() {
    let entries = vec![entry(50, "b"), entry(10, "a"), entry(50, "c"), entry(7, "z")];
    let sorted = sort_listing(entries);
    let names = listing_names(&sorted);
    // ascending by time; of the two written at 50, the one read first stays
    // first
    assert_eq!(
        names,
        vec!["z".to_string(), "a".to_string(), "b".to_string(), "c".to_string()]
    );
}

#[test]
fn a_new_upload_lists_after_every_existing_file() {
    let existing = vec!["old1.webp".to_string(), "old2.webp".to_string()];
    let mut store = MediaStore::from_listing(existing);
    store.record_upload("fresh.webp".to_string());
    let listing = store.list();
    assert_eq!(
        listing,
        vec!["old1.webp".to_string(), "old2.webp".to_string(), "fresh.webp".to_string()]
    );
    assert_eq!(store.count(), 3);
}

#[test]
fn removing_a_listed_file_reports_true_and_drops_it() {
    let mut store = MediaStore::from_listing(vec!["a.webp".to_string(), "b.webp".to_string()]);
    assert!(store.remove(&"a.webp".to_string()));
    assert_eq!(store.list(), vec!["b.webp".to_string()]);
}

#[test]
fn removing_a_missing_file_reports_false_and_changes_nothing() {
    let mut store = MediaStore::from_listing(vec!["a.webp".to_string()]);
    assert!(!store.remove(&"ghost.webp".to_string()));
    assert_eq!(store.list(), vec!["a.webp".to_string()]);
}
