use localstore::{Bookmark, BookmarkData, BookmarkDataReq, BookmarkQueryReq, DeleteReq, GetReq,
    Store};

fn init_bookmark() -> Store {
    let mut store = Store::new();
    store.init(":memory:").expect("Initialization failed");
    store
}

fn entity_bookmark_data() -> BookmarkData {
    BookmarkData {
        sort: 1,
        folder: 0,
        parent: 0,
        url: "https://example.com".to_string(),
        name: "Test Bookmark".to_string(),
        icon: "test-icon".to_string(),
        date: 1234567890,
    }
}

fn create_test_bookmark_data(name: &str, url: &str, folder: i64, parent: i64) -> BookmarkData {
    BookmarkData {
        sort: 1,
        folder,
        parent,
        url: url.to_string(),
        name: name.to_string(),
        icon: "test-icon".to_string(),
        date: 1234567890,
    }
}

fn create_simple_query() -> BookmarkQueryReq {
    BookmarkQueryReq {
        url: None,
        name: None,
        folder: None,
        parent: None,
        page: None,
        page_size: None,
        order_by: None,
        order_desc: None,
    }
}

#[test]
fn test_init() {
    init_bookmark();
}

#[test]
fn test_get_bookmark() {
    let mut store = init_bookmark();

    let bookmark_data = entity_bookmark_data();
    let bookmark_id = store
        .save_bookmark(BookmarkDataReq {
            id: None,
            data: bookmark_data.clone(),
        })
        .unwrap();

    let retrieved_bookmark = store
        .get_bookmark(GetReq { id: bookmark_id })
        .unwrap()
        .expect("Bookmark should exist");

    assert_eq!(retrieved_bookmark.id, bookmark_id);
    assert_eq!(retrieved_bookmark.url, bookmark_data.url);
    assert_eq!(retrieved_bookmark.name, bookmark_data.name);
    assert_eq!(retrieved_bookmark.sort, bookmark_data.sort);
}

#[test]
fn test_delete_bookmark() {
    let mut store = init_bookmark();

    let bookmark_data = entity_bookmark_data();
    let bookmark_id = store
        .save_bookmark(BookmarkDataReq {
            id: None,
            data: bookmark_data,
        })
        .unwrap();

    assert!(store.get_bookmark(GetReq { id: bookmark_id }).unwrap().is_some());

    store
        .delete_bookmark(DeleteReq {
            id: bookmark_id,
            force: None,
            cascade: None,
        })
        .unwrap();

    assert!(store.get_bookmark(GetReq { id: bookmark_id }).unwrap().is_none());
}

#[test]
fn test_query_bookmarks() {
    let mut store = init_bookmark();

    let bookmarks_data = [
        ("Bookmark 1", "https://example1.com", 1, 10),
        ("Bookmark 2", "https://example2.com", 1, 10),
        ("Test Bookmark", "https://test.com", 2, 20),
    ];

    for (name, url, folder, parent) in bookmarks_data.iter() {
        let data = create_test_bookmark_data(name, url, *folder, *parent);
        store.save_bookmark(BookmarkDataReq { id: None, data }).unwrap();
    }

    let mut query = create_simple_query();
    query.folder = Some(1);
    let bookmarks = store.query_bookmark(query).unwrap();
    assert!(bookmarks.len() >= 2);
    assert!(bookmarks.iter().any(|b| b.name == "Bookmark 1" && b.folder == 1));
    assert!(bookmarks.iter().any(|b| b.name == "Bookmark 2" && b.folder == 1));

    let mut query = create_simple_query();
    query.parent = Some(20);
    let bookmarks = store.query_bookmark(query).unwrap();
    assert!(bookmarks.len() >= 1);
    assert!(bookmarks.iter().any(|b| b.name == "Test Bookmark" && b.parent == 20));

    let mut query = create_simple_query();
    query.folder = Some(1);
    query.parent = Some(10);
    let bookmarks = store.query_bookmark(query).unwrap();
    assert!(bookmarks.len() >= 2);
    assert!(bookmarks
        .iter()
        .any(|b| b.name == "Bookmark 1" && b.folder == 1 && b.parent == 10));
    assert!(bookmarks
        .iter()
        .any(|b| b.name == "Bookmark 2" && b.folder == 1 && b.parent == 10));

    let mut query = create_simple_query();
    query.name = Some("Test".to_string());
    let bookmarks = store.query_bookmark(query).unwrap();
    assert!(bookmarks.len() >= 1);
    assert!(bookmarks.iter().any(|b| b.name == "Test Bookmark"));

    let mut query = create_simple_query();
    query.url = Some("example".to_string());
    let bookmarks = store.query_bookmark(query).unwrap();
    assert!(bookmarks.len() >= 2);
    assert!(bookmarks.iter().any(|b| b.url.contains("example1.com")));
    assert!(bookmarks.iter().any(|b| b.url.contains("example2.com")));

    let query = create_simple_query();
    let bookmarks = store.query_bookmark(query).unwrap();
    assert!(bookmarks.len() >= 3);
}

#[test]
fn test_create_bookmark() {
    let mut store = init_bookmark();

    let bookmark_data = entity_bookmark_data();
    let bookmark_id = store
        .save_bookmark(BookmarkDataReq {
            id: None,
            data: bookmark_data,
        })
        .unwrap();

    assert!(bookmark_id > 0);
}

#[test]
fn test_update_bookmark() {
    let mut store = init_bookmark();

    let bookmark_data = entity_bookmark_data();
    let bookmark_id = store
        .save_bookmark(BookmarkDataReq {
            id: None,
            data: bookmark_data.clone(),
        })
        .unwrap();

    let updated_data = BookmarkData {
        sort: bookmark_data.sort,
        folder: bookmark_data.folder,
        parent: bookmark_data.parent,
        url: "https://updated.com".to_string(),
        name: "Updated Bookmark".to_string(),
        icon: bookmark_data.icon,
        date: bookmark_data.date,
    };

    store
        .save_bookmark(BookmarkDataReq {
            id: Some(bookmark_id),
            data: updated_data,
        })
        .unwrap();

    let updated_bookmark = store
        .get_bookmark(GetReq { id: bookmark_id })
        .unwrap()
        .expect("Updated bookmark should exist");
    assert_eq!(updated_bookmark.name, "Updated Bookmark");
    assert_eq!(updated_bookmark.url, "https://updated.com");
}

fn saved(store: &mut Store, data: BookmarkData) -> i64 {
    store.save_bookmark(BookmarkDataReq { id: None, data }).unwrap()
}

#[test]
fn test_query_default_order_is_sort_ascending() {
    let mut store = init_bookmark();
    let mut d3 = entity_bookmark_data();
    d3.sort = 3;
    d3.name = "third".to_string();
    let mut d1 = entity_bookmark_data();
    d1.sort = 1;
    d1.name = "first".to_string();
    let mut d2 = entity_bookmark_data();
    d2.sort = 2;
    d2.name = "second".to_string();
    saved(&mut store, d3);
    saved(&mut store, d1);
    saved(&mut store, d2);

    let all = store.query_bookmark(create_simple_query()).unwrap();
    assert_eq!(all.len(), 3);
    assert_eq!(all[0].name, "first");
    assert_eq!(all[1].name, "second");
    assert_eq!(all[2].name, "third");
}

#[test]
fn test_query_empty_substring_is_no_filter() {
    let mut store = init_bookmark();
    saved(&mut store, create_test_bookmark_data("a", "https://a.com", 1, 1));
    saved(&mut store, create_test_bookmark_data("b", "https://b.com", 2, 2));

    let with_empty = {
        let mut q = create_simple_query();
        q.url = Some(String::new());
        q.name = Some(String::new());
        store.query_bookmark(q).unwrap()
    };
    let without: Vec<Bookmark> = store.query_bookmark(create_simple_query()).unwrap();
    assert_eq!(with_empty, without);
    assert_eq!(without.len(), 2);
}

#[test]
fn test_query_unrecognized_order_column_falls_back() {
    let mut store = init_bookmark();
    let mut da = entity_bookmark_data();
    da.sort = 2;
    da.name = "za".to_string();
    let mut db = entity_bookmark_data();
    db.sort = 1;
    db.name = "ab".to_string();
    saved(&mut store, da);
    saved(&mut store, db);

    let mut q = create_simple_query();
    q.order_by = Some("no_such_column".to_string());
    q.order_desc = Some(true);
    let odd = store.query_bookmark(q).unwrap();
    let plain = store.query_bookmark(create_simple_query()).unwrap();
    assert_eq!(odd, plain);
    assert_eq!(odd[0].name, "ab");
}

#[test]
fn test_query_order_by_name_descending() {
    let mut store = init_bookmark();
    let mut da = entity_bookmark_data();
    da.name = "alpha".to_string();
    let mut db = entity_bookmark_data();
    db.name = "beta".to_string();
    saved(&mut store, da);
    saved(&mut store, db);

    let mut q = create_simple_query();
    q.order_by = Some("name".to_string());
    q.order_desc = Some(true);
    let rows = store.query_bookmark(q).unwrap();
    assert_eq!(rows[0].name, "beta");
    assert_eq!(rows[1].name, "alpha");
}

#[test]
fn test_query_pagination_covers_all_rows_once() {
    let mut store = init_bookmark();
    for i in 0..5i64 {
        let mut d = entity_bookmark_data();
        d.sort = i;
        d.name = format!("row{}", i);
        saved(&mut store, d);
    }

    let mut q = create_simple_query();
    q.page = Some(1);
    q.page_size = Some(2);
    let page1 = store.query_bookmark(q).unwrap();
    assert_eq!(page1.len(), 2);

    let mut q = create_simple_query();
    q.page = Some(2);
    q.page_size = Some(2);
    let page2 = store.query_bookmark(q).unwrap();
    assert_eq!(page2.len(), 2);

    let mut q = create_simple_query();
    q.page = Some(3);
    q.page_size = Some(2);
    let page3 = store.query_bookmark(q).unwrap();
    assert_eq!(page3.len(), 1);

    let mut joined: Vec<Bookmark> = Vec::new();
    joined.extend(page1);
    joined.extend(page2);
    joined.extend(page3);
    let all = store.query_bookmark(create_simple_query()).unwrap();
    assert_eq!(joined, all);
}

#[test]
fn test_query_nonpositive_page_size_disables_pagination() {
    let mut store = init_bookmark();
    saved(&mut store, entity_bookmark_data());
    saved(&mut store, entity_bookmark_data());

    let mut q = create_simple_query();
    q.page = Some(1);
    q.page_size = Some(0);
    let rows = store.query_bookmark(q).unwrap();
    assert_eq!(rows.len(), 2);
}

#[test]
fn test_example_scenario_first_bookmark() {
    let mut store = init_bookmark();
    let data = BookmarkData {
        sort: 1,
        folder: 0,
        parent: 0,
        url: "https://example.com".to_string(),
        name: "Example".to_string(),
        icon: String::new(),
        date: 1234567890,
    };
    let id = store
        .save_bookmark(BookmarkDataReq { id: None, data: data.clone() })
        .unwrap();
    assert_eq!(id, 1);

    let got = store.get_bookmark(GetReq { id: 1 }).unwrap().expect("row should exist");
    assert_eq!(got.id, 1);
    assert_eq!(got.sort, data.sort);
    assert_eq!(got.folder, data.folder);
    assert_eq!(got.parent, data.parent);
    assert_eq!(got.url, data.url);
    assert_eq!(got.name, data.name);
    assert_eq!(got.icon, data.icon);
    assert_eq!(got.date, data.date);

    let mut q = create_simple_query();
    q.folder = Some(0);
    let rows = store.query_bookmark(q).unwrap();
    assert_eq!(rows.len(), 1);
    assert_eq!(rows[0].id, 1);
    assert_eq!(rows[0].name, "Example");
}

#[test]
fn test_read_after_write_is_consistent() {
    let mut store = init_bookmark();
    let id_a = saved(&mut store, create_test_bookmark_data("a", "https://a.com", 1, 1));
    let a = store.get_bookmark(GetReq { id: id_a }).unwrap().unwrap();
    assert_eq!(a.name, "a");

    let id_b = saved(&mut store, create_test_bookmark_data("b", "https://b.com", 2, 2));
    let b = store.get_bookmark(GetReq { id: id_b }).unwrap().unwrap();
    assert_eq!(b.name, "b");
    let a_again = store.get_bookmark(GetReq { id: id_a }).unwrap().unwrap();
    assert_eq!(a_again.name, "a");
}

#[test]
fn test_update_missing_id_is_not_an_error() {
    let mut store = init_bookmark();
    let id = store
        .save_bookmark(BookmarkDataReq {
            id: Some(12345),
            data: entity_bookmark_data(),
        })
        .unwrap();
    assert_eq!(id, 12345);
    assert!(store.get_bookmark(GetReq { id: 12345 }).unwrap().is_none());
}
