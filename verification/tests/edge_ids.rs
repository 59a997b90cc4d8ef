use memo_store::{MemoStore, Timestamp};

#[test]
fn add_still_works_when_the_largest_id_is_taken() {
    let path = "/tmp/memo_store_edge_id_test.sqlite";
    let mut store = MemoStore::open(path).expect("a file-backed store opens under /tmp");
    let raw = rusqlite::Connection::open(path).expect("a second connection opens");
    raw.execute("DELETE FROM memo", ()).expect("old test rows clear");
    let stamp = Timestamp {
        year: 2024,
        month: 5,
        day: 6,
        hour: 7,
        minute: 8,
        second: 9,
        offset_minutes: 0,
    };
    store.add_at("first", stamp).unwrap();
    let first_id = store.list().unwrap()[0].id;
    assert_eq!(first_id, 1);
    raw.execute(
        "INSERT INTO memo (id, content, created_at) VALUES (?1, ?2, ?3)",
        (i64::MAX, "at the cap", "2024-05-06T07:08:09+00:00"),
    )
    .expect("a row with the largest identifier goes in");
    store.add_at("after the cap", stamp).unwrap();
    let listed = store.list().unwrap();
    assert_eq!(listed.len(), 3);
    let newcomer = listed.iter().find(|m| m.content == "after the cap").unwrap();
    assert!(newcomer.id != first_id && newcomer.id != i64::MAX);
    raw.execute("DELETE FROM memo", ()).expect("test rows clear");
}
