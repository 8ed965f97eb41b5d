use localstore::{Download, Store, StoreError};

fn init_download() -> Store {
    let mut store = Store::new();
    store.init(":memory:").expect("Initialization failed");
    store
}

fn entity_download(name: &str, status: &str, start_time: i64) -> Download {
    Download {
        id: 0,
        url: format!("https://host/{}", name),
        file_name: name.to_string(),
        file_path: format!("/tmp/{}", name),
        file_size: 1000,
        downloaded_size: 0,
        status: status.to_string(),
        start_time,
        end_time: None,
        mime_type: None,
    }
}

#[test]
fn test_add_and_get_download() {
    let mut store = init_download();
    let mut d = entity_download("file.bin", "pending", 100);
    d.end_time = Some(222);
    d.mime_type = Some("application/octet-stream".to_string());
    let id = store.add_download(d.clone()).unwrap();
    assert!(id > 0);

    let got = store.get_download_by_id(id).unwrap().expect("download should exist");
    assert_eq!(got.id, id);
    assert_eq!(got.url, d.url);
    assert_eq!(got.file_name, d.file_name);
    assert_eq!(got.file_path, d.file_path);
    assert_eq!(got.file_size, d.file_size);
    assert_eq!(got.downloaded_size, d.downloaded_size);
    assert_eq!(got.status, d.status);
    assert_eq!(got.start_time, d.start_time);
    assert_eq!(got.end_time, d.end_time);
    assert_eq!(got.mime_type, d.mime_type);
}

#[test]
fn test_absent_optional_fields_round_trip() {
    let mut store = init_download();
    let id = store.add_download(entity_download("plain.bin", "done", 5)).unwrap();
    let got = store.get_download_by_id(id).unwrap().unwrap();
    assert_eq!(got.end_time, None);
    assert_eq!(got.mime_type, None);
}

#[test]
fn test_update_download() {
    let mut store = init_download();
    let id = store.add_download(entity_download("a.bin", "pending", 10)).unwrap();
    let mut changed = entity_download("a-renamed.bin", "downloading", 11);
    changed.id = id;
    changed.downloaded_size = 500;
    store.update_download(changed.clone()).unwrap();

    let got = store.get_download_by_id(id).unwrap().unwrap();
    assert_eq!(got.file_name, "a-renamed.bin");
    assert_eq!(got.status, "downloading");
    assert_eq!(got.downloaded_size, 500);
    assert_eq!(got.start_time, 11);
}

#[test]
fn test_update_download_status() {
    let mut store = init_download();
    let id = store.add_download(entity_download("s.bin", "pending", 1)).unwrap();
    store.update_download_status(id, "failed".to_string()).unwrap();
    let got = store.get_download_by_id(id).unwrap().unwrap();
    assert_eq!(got.status, "failed");
    assert_eq!(got.file_name, "s.bin");
}

#[test]
fn test_update_download_size() {
    let mut store = init_download();
    let id = store.add_download(entity_download("z.bin", "downloading", 1)).unwrap();
    store.update_download_size(id, 777).unwrap();
    let got = store.get_download_by_id(id).unwrap().unwrap();
    assert_eq!(got.downloaded_size, 777);
    assert_eq!(got.status, "downloading");
}

#[test]
fn test_delete_download_by_id() {
    let mut store = init_download();
    let id = store.add_download(entity_download("gone.bin", "done", 1)).unwrap();
    assert!(store.get_download_by_id(id).unwrap().is_some());
    store.delete_download_by_id(id).unwrap();
    assert!(store.get_download_by_id(id).unwrap().is_none());
}

#[test]
fn test_clear_all_downloads() {
    let mut store = init_download();
    store.add_download(entity_download("one.bin", "done", 1)).unwrap();
    store.add_download(entity_download("two.bin", "done", 2)).unwrap();
    assert_eq!(store.get_download_count().unwrap(), 2);
    store.clear_all_downloads().unwrap();
    assert_eq!(store.get_download_count().unwrap(), 0);
}

#[test]
fn test_get_downloads_paginated() {
    let mut store = init_download();
    for i in 1..=5i64 {
        store
            .add_download(entity_download(&format!("f{}.bin", i), "done", i * 10))
            .unwrap();
    }

    let page1 = store.get_downloads_paginated(1, 2).unwrap();
    assert_eq!(page1.len(), 2);
    assert_eq!(page1[0].start_time, 50);
    assert_eq!(page1[1].start_time, 40);

    let page2 = store.get_downloads_paginated(2, 2).unwrap();
    assert_eq!(page2.len(), 2);
    assert_eq!(page2[0].start_time, 30);
    assert_eq!(page2[1].start_time, 20);

    let page3 = store.get_downloads_paginated(3, 2).unwrap();
    assert_eq!(page3.len(), 1);
    assert_eq!(page3[0].start_time, 10);
}

#[test]
fn test_get_downloads_by_status() {
    let mut store = init_download();
    store.add_download(entity_download("a.bin", "done", 1)).unwrap();
    store.add_download(entity_download("b.bin", "failed", 2)).unwrap();
    store.add_download(entity_download("c.bin", "done", 3)).unwrap();

    let done = store.get_downloads_by_status("done".to_string()).unwrap();
    assert_eq!(done.len(), 2);
    assert_eq!(done[0].file_name, "c.bin");
    assert_eq!(done[1].file_name, "a.bin");
}

#[test]
fn test_search_downloads() {
    let mut store = init_download();
    store.add_download(entity_download("report.pdf", "done", 1)).unwrap();
    store.add_download(entity_download("photo.jpg", "done", 2)).unwrap();
    store.add_download(entity_download("report-2.pdf", "done", 3)).unwrap();

    let hits = store.search_downloads("report".to_string(), None).unwrap();
    assert_eq!(hits.len(), 2);
    assert_eq!(hits[0].file_name, "report-2.pdf");
    assert_eq!(hits[1].file_name, "report.pdf");

    let limited = store.search_downloads("report".to_string(), Some(1)).unwrap();
    assert_eq!(limited.len(), 1);
    assert_eq!(limited[0].file_name, "report-2.pdf");

    let by_url = store.search_downloads("host/photo".to_string(), None).unwrap();
    assert_eq!(by_url.len(), 1);
    assert_eq!(by_url[0].file_name, "photo.jpg");

    let all = store.search_downloads(String::new(), None).unwrap();
    assert_eq!(all.len(), 3);
}

#[test]
fn test_get_download_count() {
    let mut store = init_download();
    assert_eq!(store.get_download_count().unwrap(), 0);
    store.add_download(entity_download("n.bin", "done", 1)).unwrap();
    assert_eq!(store.get_download_count().unwrap(), 1);
}

#[test]
fn test_get_active_downloads() {
    let mut store = init_download();
    store.add_download(entity_download("a.bin", "done", 1)).unwrap();
    store.add_download(entity_download("b.bin", "downloading", 2)).unwrap();
    store.add_download(entity_download("c.bin", "pending", 3)).unwrap();
    store.add_download(entity_download("d.bin", "failed", 4)).unwrap();

    let active = store.get_active_downloads().unwrap();
    assert_eq!(active.len(), 2);
    assert_eq!(active[0].file_name, "c.bin");
    assert_eq!(active[1].file_name, "b.bin");
}

#[test]
fn test_init_download_database_is_idempotent() {
    let mut store = init_download();
    store.init_download_database().unwrap();
    let id = store.add_download(entity_download("x.bin", "done", 1)).unwrap();
    store.init_download_database().unwrap();
    assert!(store.get_download_by_id(id).unwrap().is_some());
}

#[test]
fn test_connection_error_is_reported() {
    let mut store = Store::new();
    let r = store.init("/no_such_directory_for_this_store/deeper");
    match r {
        Err(StoreError::Database(_)) => {},
        other => panic!("expected a database error, got {:?}", other.is_ok()),
    }
}
