use cms_core::errors::CmsError;
use cms_core::multipart::Part;
use cms_core::repository::ContentTable;
use cms_core::service::{add_content, delete_content, edit_content};
use cms_core::slider::pick_slider_paths;

fn text_part(name: &str, data: &[u8]) -> Part {
    Part { name: name.to_string(), filename: String::new(), data: data.to_vec() }
}

fn image_part(filename: &str, data: &[u8]) -> Part {
    Part { name: "image".to_string(), filename: filename.to_string(), data: data.to_vec() }
}

fn add_parts(title: &str, content: &str) -> Vec<Part> {
    vec![
        text_part("title", title.as_bytes()),
        text_part("content", content.as_bytes()),
        image_part("cat.png", &[9, 9, 9]),
    ]
}

#[test]
fn create_commits_the_decoded_fields() {
    let mut table = ContentTable::new();
    let out = add_content(&mut table, &add_parts("Hello", "World"), "editor".to_string()).unwrap();
    assert_eq!(out.record.title, "Hello");
    assert_eq!(out.record.content, "World");
    assert_eq!(out.record.author, "editor");
    assert!(out.record.date.len() >= 10);
    // the committed row equals what the create returned
    let stored = table.get(out.record.id).unwrap();
    assert_eq!(stored.title, "Hello");
    assert_eq!(stored.image, out.record.image);
}

#[test]
fn create_names_the_file_freshly_under_the_upload_root() {
    let mut table = ContentTable::new();
    let out = add_content(&mut table, &add_parts("a", "b"), "e".to_string()).unwrap();
    let prefix = "../public/assets/image/upload/";
    assert!(out.write.path.starts_with(prefix));
    assert!(out.write.path.ends_with(".png"));
    // prefix + 36-character stem + ".png"
    assert_eq!(out.write.path.len(), prefix.len() + 36 + 4);
    assert_eq!(out.write.data, vec![9, 9, 9]);
    // the record holds the store-relative form of the same path
    assert_eq!(format!("../public{}", out.record.image), out.write.path);

    // a second upload gets a different name: the store never overwrites
    let out2 = add_content(&mut table, &add_parts("c", "d"), "e".to_string()).unwrap();
    assert_ne!(out.write.path, out2.write.path);
}

#[test]
fn create_without_title_commits_nothing() {
    let mut table = ContentTable::new();
    let parts = vec![
        text_part("content", b"World"),
        image_part("cat.png", &[9, 9, 9]),
    ];
    let e = match add_content(&mut table, &parts, "editor".to_string()) {
        Err(e) => e,
        Ok(_) => panic!("expected an error"),
    };
    assert_eq!(e, CmsError::MissingField("title".to_string()));
    let (_, total) = table.list(1, 10);
    assert_eq!(total, 0);
}

#[test]
fn create_without_image_commits_nothing() {
    let mut table = ContentTable::new();
    let parts = vec![text_part("title", b"T"), text_part("content", b"C")];
    let e = match add_content(&mut table, &parts, "editor".to_string()) {
        Err(e) => e,
        Ok(_) => panic!("expected an error"),
    };
    assert_eq!(e, CmsError::MissingField("image".to_string()));
    let (_, total) = table.list(1, 10);
    assert_eq!(total, 0);
}

#[test]
fn edit_without_an_image_part_keeps_the_image_path() {
    let mut table = ContentTable::new();
    let created = add_content(&mut table, &add_parts("old", "old"), "e".to_string()).unwrap();
    let previous_image = created.record.image.clone();

    let parts = vec![
        text_part("id", created.record.id.to_string().as_bytes()),
        text_part("title", b"new title"),
        text_part("content", b"new content"),
    ];
    let out = edit_content(&mut table, &parts, "e".to_string()).unwrap();
    assert!(out.write.is_none());
    assert_eq!(out.record.image, previous_image);
    let stored = table.get(created.record.id).unwrap();
    assert_eq!(stored.image, previous_image);
    assert_eq!(stored.title, "new title");
}

#[test]
fn edit_with_an_image_part_replaces_the_image_path() {
    let mut table = ContentTable::new();
    let created = add_content(&mut table, &add_parts("old", "old"), "e".to_string()).unwrap();
    let parts = vec![
        text_part("id", created.record.id.to_string().as_bytes()),
        text_part("title", b"t"),
        text_part("content", b"c"),
        image_part("new.gif", &[1, 2]),
    ];
    let out = edit_content(&mut table, &parts, "e".to_string()).unwrap();
    let write = out.write.unwrap();
    assert!(write.path.ends_with(".gif"));
    assert_ne!(out.record.image, created.record.image);
    let stored = table.get(created.record.id).unwrap();
    assert_eq!(stored.image, out.record.image);
}

#[test]
fn edit_requires_the_id_field() {
    let mut table = ContentTable::new();
    let parts = vec![text_part("title", b"t"), text_part("content", b"c")];
    let e = match edit_content(&mut table, &parts, "e".to_string()) {
        Err(e) => e,
        Ok(_) => panic!("expected an error"),
    };
    assert_eq!(e, CmsError::MissingField("id".to_string()));
}

#[test]
fn edit_rejects_a_non_numeric_id() {
    let mut table = ContentTable::new();
    let parts = vec![
        text_part("id", b"abc"),
        text_part("title", b"t"),
        text_part("content", b"c"),
    ];
    let e = match edit_content(&mut table, &parts, "e".to_string()) {
        Err(e) => e,
        Ok(_) => panic!("expected an error"),
    };
    assert_eq!(e, CmsError::InvalidEncoding);
}

#[test]
fn edit_without_image_of_a_missing_record_is_not_found() {
    let mut table = ContentTable::new();
    let parts = vec![
        text_part("id", b"42"),
        text_part("title", b"t"),
        text_part("content", b"c"),
    ];
    let e = match edit_content(&mut table, &parts, "e".to_string()) {
        Err(e) => e,
        Ok(_) => panic!("expected an error"),
    };
    assert_eq!(e, CmsError::NotFound);
}

#[test]
fn delete_content_removes_the_row_and_is_idempotent() {
    let mut table = ContentTable::new();
    let created = add_content(&mut table, &add_parts("a", "b"), "e".to_string()).unwrap();
    delete_content(&mut table, created.record.id);
    assert!(matches!(table.get(created.record.id), Err(CmsError::NotFound)));
    delete_content(&mut table, created.record.id);
    assert!(matches!(table.get(created.record.id), Err(CmsError::NotFound)));
}

#[test]
fn slider_shows_at_most_ten_of_the_given_paths() {
    let paths: Vec<String> = (0..13).map(|i| format!("s{}.webp", i)).collect();
    let picked = pick_slider_paths(paths.clone());
    assert_eq!(picked.len(), 10);
    for p in &picked {
        assert!(paths.contains(p));
    }
    let few = pick_slider_paths(vec!["only.webp".to_string()]);
    assert_eq!(few, vec!["only.webp".to_string()]);
}
