use sdb::{Database, Entity};

fn entity(id: u64, name: &str, description: &str) -> Entity {
    Entity::new(id, name.to_string(), description.to_string()).unwrap()
}

#[test]
fn new_store_is_empty() {
    let db = Database::new();
    assert_eq!(db.len(), 0);
    assert!(db.select().is_empty());
    assert!(db.page(0).is_none());
}

#[test]
fn records_are_addressed_by_page_and_offset() {
    let mut db = Database::new();
    for i in 0..27u64 {
        db.insert(entity(i + 1, &format!("n{i}"), "d"));
    }
    assert_eq!(db.len(), 27);
    for i in 0..27usize {
        let page = db.page(i / 13).unwrap();
        let offset = (i % 13) * 300;
        let expected = entity(i as u64 + 1, &format!("n{i}"), "d").serialize();
        assert_eq!(&page[offset..offset + 300], &expected[..]);
    }
    assert!(db.page(2).is_some());
    assert!(db.page(3).is_none());
}

#[test]
fn thirteenth_record_opens_second_page() {
    let mut db = Database::new();
    for i in 0..13u64 {
        db.insert(entity(i + 1, "a", "b"));
    }
    assert!(db.page(1).is_none());
    db.insert(entity(14, "a", "b"));
    let page = db.page(1).unwrap();
    assert_eq!(&page[0..300], &entity(14, "a", "b").serialize()[..]);
}

#[test]
fn pages_are_4096_bytes_with_unused_tail() {
    let mut db = Database::new();
    for i in 0..13u64 {
        db.insert(entity(i + 1, &"x".repeat(31), &"y".repeat(254)));
    }
    let page = db.page(0).unwrap();
    assert_eq!(page.len(), 4096);
    assert!(page[3900..4096].iter().all(|b| *b == 0));
}

#[test]
fn select_keeps_insertion_order() {
    let mut db = Database::new();
    db.insert(entity(3, "c", "third"));
    db.insert(entity(1, "a", "first"));
    db.insert(entity(2, "b", "second"));
    let rows = db.select();
    let ids: Vec<u64> = rows.iter().map(|e| e.id()).collect();
    assert_eq!(ids, vec![3, 1, 2]);
    assert_eq!(rows[1].user_name(), "a");
    assert_eq!(rows[1].description(), "first");
}

#[test]
fn select_after_insert_ends_with_inserted() {
    let mut db = Database::new();
    for i in 0..20u64 {
        db.insert(entity(i + 1, "a", "b"));
        let rows = db.select();
        assert_eq!(rows.len(), i as usize + 1);
        assert_eq!(rows.last().unwrap().id(), i + 1);
    }
}

#[test]
fn duplicate_ids_are_kept() {
    let mut db = Database::new();
    db.insert(entity(9, "a", "b"));
    db.insert(entity(9, "c", "d"));
    let rows = db.select();
    assert_eq!(rows.len(), 2);
    assert_eq!(rows[0].user_name(), "a");
    assert_eq!(rows[1].user_name(), "c");
}

#[test]
fn unused_slots_stay_zero() {
    let mut db = Database::new();
    db.insert(entity(1, &"x".repeat(31), &"y".repeat(254)));
    db.insert(entity(2, "a", "b"));
    let page = db.page(0).unwrap();
    assert!(page[600..4096].iter().all(|b| *b == 0));
    let before: Vec<u8> = page[0..300].to_vec();
    db.insert(entity(3, "c", "d"));
    let page = db.page(0).unwrap();
    assert_eq!(&page[0..300], &before[..]);
    assert!(page[900..4096].iter().all(|b| *b == 0));
}
