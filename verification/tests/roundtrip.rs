use claw_rag_service::db::indexed_query;
use claw_rag_service::db::insert_chunk;
use claw_rag_service::db::insert_embedding;
use claw_rag_service::db::load_all_indexed;
use claw_rag_service::db::open_db;
use claw_rag_service::db::OpenStep;
use claw_rag_service::db::SqlValue;
use claw_rag_service::db::Statement;
use claw_rag_service::db::StoredRow;
use claw_rag_service::embed::embed_batch;
use claw_rag_service::embed::EmbedAction;
use claw_rag_service::embed::EmbedConfig;
use claw_rag_service::search::query_index;
use claw_rag_service::search::QueryAction;
use claw_rag_service::search::QueryEvent;
use claw_rag_service::search::QueryStage;
use claw_rag_service::QueryRequest;
use claw_rag_service::QueryResponse;
use rusqlite::types::Value;
use rusqlite::Connection;

fn run(conn: &Connection, statement: &Statement) {
    let params: Vec<Value> = statement
        .params
        .iter()
        .map(|p| match p {
            SqlValue::Text(text) => Value::Text(text.clone()),
            SqlValue::Integer(number) => Value::Integer(*number),
            SqlValue::Blob(bytes) => Value::Blob(bytes.clone()),
        })
        .collect();
    conn.execute(statement.sql, rusqlite::params_from_iter(params)).unwrap();
}

fn mock_vectors(texts: &[String]) -> Vec<Vec<u32>> {
    let config = EmbedConfig::mock_from_env(Some("1".to_string())).expect("mock");
    match embed_batch(&config, texts).1 {
        EmbedAction::Mock(batch) => batch
            .iter()
            .map(|lanes| {
                let sums: Vec<f32> =
                    lanes.iter().map(|lane| lane.iter().map(|b| f32::from(*b) / 255.0).sum()).collect();
                let norm = sums.iter().map(|x: &f32| x * x).sum::<f32>().sqrt();
                sums.iter().map(|x| (x / norm).to_bits()).collect()
            })
            .collect(),
        _ => panic!("no mock"),
    }
}

fn dot(a: &[u32], b: &[u32]) -> u32 {
    a.iter()
        .zip(b.iter())
        .map(|(x, y)| f32::from_bits(*x) * f32::from_bits(*y))
        .sum::<f32>()
        .to_bits()
}

fn load(conn: &Connection) -> Vec<StoredRow> {
    let mut stmt = conn.prepare(indexed_query().sql).unwrap();
    let rows = stmt
        .query_map([], |r| {
            Ok(StoredRow { path: r.get(0)?, text: r.get(1)?, dim: r.get(2)?, vec: r.get(3)? })
        })
        .unwrap();
    rows.map(|r| r.unwrap()).collect()
}

fn answer(conn: &Connection, req: &QueryRequest) -> QueryResponse {
    let (mut query, mut action) = query_index(true, req);
    loop {
        let event = match action {
            QueryAction::OpenDb => QueryEvent::Opened(Ok(())),
            QueryAction::Embed(text) => QueryEvent::Embedded(Ok(mock_vectors(&[text]))),
            QueryAction::Ask { query, .. } => {
                assert_eq!(query, mock_vectors(&[req.query.clone()])[0]);
                QueryEvent::Answered(Ok(None))
            }
            QueryAction::Load => QueryEvent::Loaded(load_all_indexed(load(conn), None)),
            QueryAction::Score => match &query.stage {
                QueryStage::Scoring { query, rows } => {
                    QueryEvent::Scored(rows.iter().map(|row| dot(query, &row.vec)).collect())
                }
                _ => panic!("nothing to score"),
            },
            QueryAction::Finish(answer) => return answer.unwrap(),
        };
        assert!(query.expects(&event));
        (query, action) = query.step(event);
    }
}

#[test]
fn written_texts_answer_a_mock_query() {
    let conn = Connection::open_in_memory().unwrap();
    for step in open_db(Some("")) {
        if let OpenStep::Batch(sql) = step {
            conn.execute_batch(sql).unwrap();
        }
    }
    let written = [
        ("ws1:note.md", "hello RAG service test content"),
        ("ws2:docs.md", "secondary repo doc about embeddings"),
    ];
    for (path, text) in written {
        run(&conn, &insert_chunk(path, 0, text));
        let vector = &mock_vectors(&[text.to_string()])[0];
        run(&conn, &insert_embedding(conn.last_insert_rowid(), vector.len(), vector).unwrap());
    }

    let r = answer(&conn, &QueryRequest { query: "RAG service".into(), top_k: 4 });
    assert_eq!(r.phase, "1-sqlite");
    assert!(!r.hits.is_empty());
    assert!(r.hits.iter().all(|h| h.path.contains(':')));

    let r = answer(&conn, &QueryRequest { query: written[0].1.into(), top_k: 4 });
    assert_eq!(r.phase, "1-sqlite");
    assert_eq!(r.hits.len(), 2);
    assert!(r.hits.iter().all(|h| h.path.contains(':')));
    assert_eq!(r.hits[0].path, "ws1:note.md");
    assert_eq!(r.hits[0].snippet, "hello RAG service test content");
    let best = f32::from_bits(r.hits[0].score.unwrap());
    assert!((best - 1.0).abs() < 1e-5);
}
