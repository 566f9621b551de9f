use cms_core::errors::CmsError;
use cms_core::repository::ContentTable;

fn add_sample(table: &mut ContentTable, tag: &str) -> i32 {
    table.add(
        format!("/assets/image/upload/{}.png", tag),
        format!("title {}", tag),
        format!("content {}", tag),
        "01-01-2024".to_string(),
        "editor".to_string(),
    )
}

#[test]
fn add_then_get_round_trip() {
    let mut table = ContentTable::new();
    let id = table.add(
        "/assets/image/upload/pic.png".to_string(),
        "A title".to_string(),
        "A body".to_string(),
        "02-03-2024".to_string(),
        "editor".to_string(),
    );
    let rec = table.get(id).unwrap();
    assert_eq!(rec.id, id);
    assert_eq!(rec.image, "/assets/image/upload/pic.png");
    assert_eq!(rec.title, "A title");
    assert_eq!(rec.content, "A body");
    assert_eq!(rec.date, "02-03-2024");
    assert_eq!(rec.author, "editor");
}

#[test]
fn ids_are_assigned_increasing() {
    let mut table = ContentTable::new();
    let a = add_sample(&mut table, "a");
    let b = add_sample(&mut table, "b");
    let c = add_sample(&mut table, "c");
    assert!(a < b && b < c);
}

#[test]
fn get_missing_id_is_not_found() {
    let table = ContentTable::new();
    assert!(matches!(table.get(7), Err(CmsError::NotFound)));
}

#[test]
fn delete_then_get_fails_and_redelete_is_noop() {
    let mut table = ContentTable::new();
    let a = add_sample(&mut table, "a");
    let b = add_sample(&mut table, "b");
    table.delete(a);
    assert!(matches!(table.get(a), Err(CmsError::NotFound)));
    // a second delete of the same id errors nowhere and changes nothing
    table.delete(a);
    assert!(matches!(table.get(a), Err(CmsError::NotFound)));
    assert!(table.get(b).is_ok());
    let (_, total) = table.list(1, 10);
    assert_eq!(total, 1);
}

#[test]
fn edit_replaces_every_field_and_keeps_the_id() {
    let mut table = ContentTable::new();
    let id = add_sample(&mut table, "a");
    table.edit(
        id,
        "/assets/image/upload/new.png".to_string(),
        "new title".to_string(),
        "new content".to_string(),
        "05-05-2025".to_string(),
        "someone".to_string(),
    );
    let rec = table.get(id).unwrap();
    assert_eq!(rec.id, id);
    assert_eq!(rec.image, "/assets/image/upload/new.png");
    assert_eq!(rec.title, "new title");
    assert_eq!(rec.author, "someone");
}

#[test]
fn edit_of_missing_id_is_a_silent_noop() {
    let mut table = ContentTable::new();
    let id = add_sample(&mut table, "a");
    table.edit(
        id + 100,
        "x".to_string(),
        "y".to_string(),
        "z".to_string(),
        "d".to_string(),
        "w".to_string(),
    );
    let rec = table.get(id).unwrap();
    assert_eq!(rec.title, "title a");
    let (_, total) = table.list(1, 10);
    assert_eq!(total, 1);
}

#[test]
fn list_orders_by_id_descending_with_full_count() {
    let mut table = ContentTable::new();
    let a = add_sample(&mut table, "a");
    let b = add_sample(&mut table, "b");
    let c = add_sample(&mut table, "c");
    let (page, total) = table.list(1, 2);
    assert_eq!(total, 3);
    assert_eq!(page.len(), 2);
    assert_eq!(page[0].id, c);
    assert_eq!(page[1].id, b);
    let (page2, total2) = table.list(2, 2);
    assert_eq!(total2, 3);
    assert_eq!(page2.len(), 1);
    assert_eq!(page2[0].id, a);
}

#[test]
fn list_beyond_the_end_is_empty_but_counts_all() {
    let mut table = ContentTable::new();
    add_sample(&mut table, "a");
    let (page, total) = table.list(5, 3);
    assert_eq!(total, 1);
    assert!(page.is_empty());
}
