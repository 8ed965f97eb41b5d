use localstore::{History, Store};

#[test]
fn test_history() {
    let mut store = Store::new();
    store.init(":memory:").expect("Failed to set BASE_PATH");
    store.init_history_database().expect("Failed to initialize database");

    let history = History {
        id: None,
        url: Some("https://example.com".to_string()),
        icon: Some("icon".to_string()),
        title: Some("Example Site".to_string()),
        visit: Some("2024-01-01".to_string()),
    };
    let history_id = store.save_history(history.clone()).unwrap();

    assert!(history_id > 0, "Create history Failed");

    let updated_data = History {
        id: Some(history_id),
        url: history.url,
        icon: history.icon,
        title: Some("Updated Title".to_string()),
        visit: Some("2024-01-02".to_string()),
    };
    store.save_history(updated_data).unwrap();
}

#[test]
fn test_save_history_with_absent_fields() {
    let mut store = Store::new();
    store.init(":memory:").unwrap();
    let id = store
        .save_history(History {
            id: None,
            url: None,
            icon: None,
            title: None,
            visit: None,
        })
        .unwrap();
    assert!(id > 0);
}

#[test]
fn test_base_path_is_set_once() {
    let mut store = Store::new();
    assert!(store.base_path().is_none());

    store.init(":memory:").unwrap();
    assert_eq!(store.base_path().unwrap(), ":memory:");

    let second = store.init("/somewhere/else");
    match second {
        Err(e) => assert!(e.is_already_initialized()),
        Ok(_) => panic!("second initialization must be rejected"),
    }
    assert_eq!(store.base_path().unwrap(), ":memory:");
}

#[test]
fn test_entities_are_independent() {
    let mut store = Store::new();
    store.init(":memory:").unwrap();

    let bookmark_id = store
        .save_bookmark(localstore::BookmarkDataReq {
            id: None,
            data: localstore::BookmarkData {
                sort: 1,
                folder: 0,
                parent: 0,
                url: "https://x.example".to_string(),
                name: "x".to_string(),
                icon: String::new(),
                date: 1,
            },
        })
        .unwrap();
    let history_id = store
        .save_history(History {
            id: None,
            url: Some("https://y.example".to_string()),
            icon: None,
            title: None,
            visit: None,
        })
        .unwrap();

    assert_eq!(bookmark_id, 1);
    assert_eq!(history_id, 1);
    assert_eq!(store.get_download_count().unwrap(), 0);
    assert!(store
        .get_bookmark(localstore::GetReq { id: bookmark_id })
        .unwrap()
        .is_some());
}
