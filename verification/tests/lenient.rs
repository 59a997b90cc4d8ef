use memo_store::{MemoStore, Timestamp};

#[test]
fn rows_with_malformed_timestamps_are_skipped() {
    let path = "/tmp/memo_store_lenient_read_test.sqlite";
    let mut store = MemoStore::open(path).expect("a file-backed store opens under /tmp");
    let raw = rusqlite::Connection::open(path).expect("a second connection opens");
    raw.execute("DELETE FROM memo", ()).expect("old test rows clear");
    let stamp = Timestamp {
        year: 2024,
        month: 5,
        day: 6,
        hour: 7,
        minute: 8,
        second: 9,
        offset_minutes: 0,
    };
    store.add_at("readable", stamp).unwrap();
    raw.execute(
        "INSERT INTO memo (content, created_at) VALUES (?1, ?2)",
        ("unreadable", "last Tuesday, around noon"),
    )
    .expect("a malformed row goes in");
    store.add_at("also readable", stamp).unwrap();
    let listed = store.list().unwrap();
    let listed_contents: Vec<&str> = listed.iter().map(|m| m.content.as_str()).collect();
    assert_eq!(listed_contents, vec!["readable", "also readable"]);
    assert!(listed.iter().all(|m| m.created_at == stamp));
    let found = store.find("readable").unwrap();
    assert_eq!(found.len(), 2);
    let found = store.find("unread").unwrap();
    assert_eq!(found.len(), 0);
    raw.execute("DELETE FROM memo", ()).expect("test rows clear");
}
