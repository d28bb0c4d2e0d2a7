use claw_rag_service::db::blob_to_f32_vec;
use claw_rag_service::db::chunk_count;
use claw_rag_service::db::delete_file_and_chunks;
use claw_rag_service::db::f32_slice_to_blob;
use claw_rag_service::db::file_is_unchanged;
use claw_rag_service::db::file_meta_query;
use claw_rag_service::db::files_query;
use claw_rag_service::db::indexed_query;
use claw_rag_service::db::insert_chunk;
use claw_rag_service::db::insert_embedding;
use claw_rag_service::db::list_all_files;
use claw_rag_service::db::load_all_indexed;
use claw_rag_service::db::open_db;
use claw_rag_service::db::truncate_index;
use claw_rag_service::db::upsert_file_meta;
use claw_rag_service::db::ChunkRow;
use claw_rag_service::db::FileMeta;
use claw_rag_service::db::OpenStep;
use claw_rag_service::db::SqlValue;
use claw_rag_service::db::Statement;
use claw_rag_service::db::StoredRow;
use rusqlite::types::Value;
use rusqlite::Connection;

fn bits(numbers: &[f32]) -> Vec<u32> {
    numbers.iter().map(|x| x.to_bits()).collect()
}

fn bound(statement: &Statement) -> Vec<Value> {
    statement
        .params
        .iter()
        .map(|p| match p {
            SqlValue::Text(text) => Value::Text(text.clone()),
            SqlValue::Integer(number) => Value::Integer(*number),
            SqlValue::Blob(bytes) => Value::Blob(bytes.clone()),
        })
        .collect()
}

fn run(conn: &Connection, statement: &Statement) -> Result<usize, rusqlite::Error> {
    conn.execute(statement.sql, rusqlite::params_from_iter(bound(statement)))
}

fn open_in_memory() -> Connection {
    let conn = Connection::open_in_memory().unwrap();
    for step in open_db(None) {
        match step {
            OpenStep::CreateParent => panic!("nothing to create"),
            OpenStep::Open => {}
            OpenStep::Batch(sql) => conn.execute_batch(sql).unwrap(),
        }
    }
    conn
}

fn count(conn: &Connection) -> i64 {
    conn.query_row(chunk_count().sql, [], |r| r.get(0)).unwrap()
}

fn add(conn: &Connection, path: &str, ordinal: i32, text: &str, vec: &[u32]) {
    run(conn, &insert_chunk(path, ordinal, text)).unwrap();
    let id = conn.last_insert_rowid();
    run(conn, &insert_embedding(id, vec.len(), vec).unwrap()).unwrap();
}

fn stored(conn: &Connection) -> Vec<StoredRow> {
    let mut stmt = conn.prepare(indexed_query().sql).unwrap();
    let rows = stmt
        .query_map([], |r| {
            Ok(StoredRow { path: r.get(0)?, text: r.get(1)?, dim: r.get(2)?, vec: r.get(3)? })
        })
        .unwrap();
    rows.map(|r| r.unwrap()).collect()
}

fn loaded(conn: &Connection) -> Vec<ChunkRow> {
    load_all_indexed(stored(conn), None).unwrap()
}

fn recorded(conn: &Connection, path: &str) -> Result<Option<FileMeta>, String> {
    let query = file_meta_query(path);
    let mut stmt = conn.prepare(query.sql).unwrap();
    let mut rows = stmt.query(rusqlite::params_from_iter(bound(&query))).unwrap();
    Ok(rows.next().unwrap().map(|r| FileMeta {
        content_hash: r.get(0).unwrap(),
        size_bytes: r.get(1).unwrap(),
        mtime_ms: r.get(2).unwrap(),
    }))
}

fn files(conn: &Connection) -> Vec<String> {
    let mut stmt = conn.prepare(files_query().sql).unwrap();
    let rows: Vec<Result<String, String>> = stmt
        .query_map([], |r| r.get::<_, String>(0))
        .unwrap()
        .map(|r| r.map_err(|e| e.to_string()))
        .collect();
    list_all_files(rows).unwrap()
}

fn row(path: &str, dim: i64, vec: &[u8]) -> StoredRow {
    StoredRow { path: path.to_string(), text: "t".to_string(), dim, vec: vec.to_vec() }
}

#[test]
fn opening_creates_only_a_named_parent() {
    let steps = open_db(Some(".claw-rag"));
    assert_eq!(steps.len(), 4);
    assert!(matches!(steps[0], OpenStep::CreateParent));
    assert!(matches!(steps[1], OpenStep::Open));
    assert!(matches!(steps[2], OpenStep::Batch(sql) if sql.contains("foreign_keys = ON")));
    assert!(matches!(steps[3], OpenStep::Batch(sql) if sql.contains("CREATE TABLE")));
    assert!(matches!(open_db(Some(""))[0], OpenStep::Open));
    assert!(matches!(open_db(None)[0], OpenStep::Open));
}

#[test]
fn opening_twice_keeps_what_is_there() {
    let conn = open_in_memory();
    add(&conn, "a", 0, "text", &bits(&[1.0]));
    for step in open_db(None) {
        if let OpenStep::Batch(sql) = step {
            conn.execute_batch(sql).unwrap();
        }
    }
    assert_eq!(count(&conn), 1);
}

#[test]
fn written_chunks_come_back() {
    let conn = open_in_memory();
    let first = bits(&[1.0, -0.0, f32::NAN, f32::INFINITY, 1.0e-45]);
    let second = bits(&[0.25, 0.5]);
    add(&conn, "w:a.md", 0, "first", &first);
    add(&conn, "w:a.md", 1, "second…", &second);
    let rows = loaded(&conn);
    assert_eq!(rows.len(), 2);
    assert_eq!(rows[0].path, "w:a.md");
    assert_eq!(rows[0].text, "first");
    assert_eq!(rows[0].vec, first);
    assert_eq!(rows[1].text, "second…");
    assert_eq!(rows[1].vec, second);
    assert_eq!(count(&conn), 2);
}

#[test]
fn a_chunk_stored_with_another_length_is_passed_over() {
    let conn = open_in_memory();
    add(&conn, "a", 0, "one", &bits(&[1.0, 2.0]));
    run(&conn, &insert_chunk("b", 0, "two")).unwrap();
    let id = conn.last_insert_rowid();
    run(&conn, &insert_embedding(id, 3, &bits(&[1.0, 2.0])).unwrap()).unwrap();
    add(&conn, "c", 0, "three", &bits(&[0.5]));
    let rows = loaded(&conn);
    let paths: Vec<&str> = rows.iter().map(|r| r.path.as_str()).collect();
    assert_eq!(paths, vec!["a", "c"]);
    assert_eq!(rows[1].vec, bits(&[0.5]));
    assert_eq!(count(&conn), 3);
}

#[test]
fn rows_load_in_the_order_they_come() {
    let rows = |paths: [&str; 2]| paths.map(|path| row(path, 1, &[0, 0, 128, 63])).to_vec();
    let path_of = |rows: Vec<StoredRow>| -> Vec<String> {
        load_all_indexed(rows, None).unwrap().into_iter().map(|chunk| chunk.path).collect()
    };
    assert_eq!(path_of(rows(["a", "b"])), vec!["a".to_string(), "b".to_string()]);
    assert_eq!(path_of(rows(["b", "a"])), vec!["b".to_string(), "a".to_string()]);
}

#[test]
fn a_chunk_has_its_place_once() {
    let conn = open_in_memory();
    add(&conn, "a", 0, "text", &bits(&[1.0]));
    assert!(run(&conn, &insert_chunk("a", 0, "other")).is_err());
    assert!(run(&conn, &insert_chunk("a", -1, "other")).is_ok());
}

#[test]
fn deleting_a_file_takes_its_chunks_along() {
    let conn = open_in_memory();
    add(&conn, "a", 0, "one", &bits(&[1.0]));
    add(&conn, "b", 0, "two", &bits(&[2.0]));
    run(&conn, &upsert_file_meta("a", "h", 1, 2, 3)).unwrap();
    run(&conn, &upsert_file_meta("b", "h", 1, 2, 3)).unwrap();
    for statement in delete_file_and_chunks("a") {
        run(&conn, &statement).unwrap();
    }
    assert_eq!(files(&conn), vec!["b".to_string()]);
    let rows = loaded(&conn);
    assert_eq!(rows.len(), 1);
    assert_eq!(rows[0].path, "b");
    let left: i64 = conn.query_row("SELECT COUNT(*) FROM embeddings", [], |r| r.get(0)).unwrap();
    assert_eq!(left, 1);
}

#[test]
fn truncating_empties_the_index() {
    let conn = open_in_memory();
    add(&conn, "a", 0, "one", &bits(&[1.0]));
    run(&conn, &upsert_file_meta("a", "h", 1, 2, 3)).unwrap();
    conn.execute_batch(truncate_index()).unwrap();
    assert_eq!(count(&conn), 0);
    assert!(files(&conn).is_empty());
    assert!(loaded(&conn).is_empty());
}

#[test]
fn a_recorded_file_is_unchanged_until_it_changes() {
    let conn = open_in_memory();
    assert_eq!(file_is_unchanged(recorded(&conn, "a"), "h", 1, 2), Ok(false));
    run(&conn, &upsert_file_meta("a", "h", 1, 2, 3)).unwrap();
    assert_eq!(file_is_unchanged(recorded(&conn, "a"), "h", 1, 2), Ok(true));
    assert_eq!(file_is_unchanged(recorded(&conn, "a"), "H", 1, 2), Ok(false));
    assert_eq!(file_is_unchanged(recorded(&conn, "a"), "h", 2, 2), Ok(false));
    assert_eq!(file_is_unchanged(recorded(&conn, "a"), "h", 1, 3), Ok(false));
    assert_eq!(file_is_unchanged(recorded(&conn, "b"), "h", 1, 2), Ok(false));
    run(&conn, &upsert_file_meta("a", "g", 5, 6, 7)).unwrap();
    assert_eq!(file_is_unchanged(recorded(&conn, "a"), "h", 1, 2), Ok(false));
    assert_eq!(file_is_unchanged(recorded(&conn, "a"), "g", 5, 6), Ok(true));
    run(&conn, &upsert_file_meta("b", "h", 1, 2, 3)).unwrap();
    assert_eq!(file_is_unchanged(recorded(&conn, "a"), "g", 5, 6), Ok(true));
    assert_eq!(file_is_unchanged(recorded(&conn, "b"), "h", 1, 2), Ok(true));
    let mut listed = files(&conn);
    listed.sort_unstable();
    assert_eq!(listed, vec!["a".to_string(), "b".to_string()]);
}

#[test]
fn a_record_that_cannot_be_read_is_an_error() {
    assert_eq!(
        file_is_unchanged(Err("disk".to_string()), "h", 1, 2),
        Err("disk".to_string())
    );
}

#[test]
fn listing_stops_at_the_first_bad_row() {
    let rows = vec![Ok("a".to_string()), Err("x".to_string()), Err("y".to_string())];
    assert_eq!(list_all_files(rows), Err("x".to_string()));
    assert_eq!(
        list_all_files(vec![Ok("b".to_string()), Ok("a".to_string())]),
        Ok(vec!["b".to_string(), "a".to_string()])
    );
    assert_eq!(list_all_files(vec![]), Ok(vec![]));
}

#[test]
fn vectors_are_stored_as_little_endian_bytes() {
    let numbers = [1.0f32, -2.5, 0.1];
    let blob = f32_slice_to_blob(&bits(&numbers));
    let mut expected: Vec<u8> = Vec::new();
    for x in numbers {
        expected.extend_from_slice(&x.to_le_bytes());
    }
    assert_eq!(blob, expected);
    assert_eq!(&blob[..4], &[0, 0, 128, 63]);
    assert_eq!(blob_to_f32_vec(&blob, 3), Some(bits(&numbers)));
}

#[test]
fn a_blob_of_another_length_is_no_vector() {
    assert_eq!(blob_to_f32_vec(&[1, 2, 3, 4], 2), None);
    assert_eq!(blob_to_f32_vec(&[1, 2, 3, 4], 0), None);
    assert_eq!(blob_to_f32_vec(&[1, 2, 3, 4, 5], 1), None);
    assert_eq!(blob_to_f32_vec(&[], usize::MAX), None);
    assert_eq!(blob_to_f32_vec(&[], 0), Some(vec![]));
}

#[test]
fn an_embedding_must_have_a_length_that_fits() {
    match insert_embedding(7, usize::MAX, &[]) {
        Err(message) => assert_eq!(message, "embedding dim too large"),
        Ok(_) => panic!("it fits"),
    }
    let statement = insert_embedding(7, 1, &[0x3f80_0000]).unwrap();
    assert!(matches!(statement.params[0], SqlValue::Integer(7)));
    assert!(matches!(statement.params[1], SqlValue::Integer(1)));
    assert!(matches!(&statement.params[2], SqlValue::Blob(b) if b == &[0, 0, 128, 63]));
}

#[test]
fn rows_of_another_length_are_skipped() {
    let rows = vec![
        row("a", 1, &[0, 0, 128, 63]),
        row("b", 2, &[0, 0, 128, 63]),
        row("c", i64::MAX, &[]),
        row("d", 0, &[]),
    ];
    let chunks = load_all_indexed(rows, None).unwrap();
    assert_eq!(chunks.len(), 2);
    assert_eq!(chunks[0].path, "a");
    assert_eq!(chunks[0].vec, vec![0x3f80_0000]);
    assert_eq!(chunks[1].path, "d");
    assert!(chunks[1].vec.is_empty());
}

#[test]
fn a_negative_length_spoils_the_load() {
    let bad = load_all_indexed(vec![row("a", 0, &[]), row("b", -1, &[])], None);
    assert_eq!(bad.err(), Some("invalid embedding dim in db".to_string()));
}

#[test]
fn the_first_fault_of_a_load_is_told() {
    let bad = load_all_indexed(vec![row("a", -1, &[])], Some("disk".to_string()));
    assert_eq!(bad.err(), Some("invalid embedding dim in db".to_string()));
    let cut = load_all_indexed(vec![row("a", 0, &[])], Some("disk".to_string()));
    assert_eq!(cut.err(), Some("disk".to_string()));
}
